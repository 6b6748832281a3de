//! The per-connection protocol engine: staged state machine, framed
//! byte stream, outbound frame queue, and keepalive liveness.

pub mod codec;
pub mod packet;
pub mod handshake;
pub mod status;
pub mod login;
pub mod play;

use vstd::prelude::*;

verus! {

/// Milliseconds between a keepalive reply and the next probe.
pub const KEEPALIVE_INTERVAL_MS: u64 = 2500;

/// Milliseconds a keepalive reply may take before the peer is dropped.
pub const KEEPALIVE_TIMEOUT_MS: u64 = 5000;

/// Largest keepalive id ever sent (the wire carries a signed 64-bit
/// value).
pub const MAX_KEEPALIVE_ID: u64 = 0x7fff_ffff_ffff_ffff;

/// The protocol stage a connection is really in, as the inbound codec
/// sees it.
#[derive(Clone, Copy, PartialEq, Eq, Structural, Debug)]
pub enum RealStage {
    /// Before the intention packet.
    Handshake,
    /// Serving a status query.
    Status,
    /// Logging in.
    Login,
    /// Configuration stage.
    Config,
    /// In play.
    Play,
}

/// The stage transitions a connection may take: forward along
/// handshake to status or login, and login through configuration to
/// play; never backward.
pub open spec fn stage_allows(from: RealStage, to: RealStage) -> bool {
    ||| from == to
    ||| (from is Handshake && (to is Status || to is Login))
    ||| (from is Login && to is Config)
    ||| (from is Config && to is Play)
}

/// Keepalive liveness state of one play-stage connection.
pub enum ConnKeepalive {
    /// A probe is owed at `sending_at` (milliseconds).
    Sending { sending_at: u64 },
    /// A probe with `expected_id` is outstanding and owed back by
    /// `expected_by` (milliseconds).
    Waiting { expected_id: u64, expected_by: u64 },
}

/// What the periodic keepalive pass asks of the connection.
pub enum KeepaliveTick {
    /// Nothing due yet.
    Idle,
    /// Send a keepalive probe with this id.
    Send { id: u64 },
    /// The reply never came: kick the peer as timed out.
    KickTimedOut,
}

/// What a received keepalive echo means.
pub enum KeepaliveReply {
    /// The expected echo: liveness confirmed.
    Accept,
    /// An echo that was never asked for, or with the wrong id: kick
    /// the peer.
    KickUnordered,
}

/// The periodic keepalive step: once the send time is reached a probe
/// with a fresh id goes out and a reply is awaited; once the reply
/// deadline passes the peer is timed out.
pub open spec fn spec_keepalive_tick(state: ConnKeepalive, now: u64, fresh_id: u64) -> (
    ConnKeepalive,
    KeepaliveTick,
) {
    match state {
        ConnKeepalive::Sending { sending_at } => {
            if now >= sending_at {
                (
                    ConnKeepalive::Waiting {
                        expected_id: fresh_id,
                        expected_by: (now + KEEPALIVE_TIMEOUT_MS) as u64,
                    },
                    KeepaliveTick::Send { id: fresh_id },
                )
            } else {
                (state, KeepaliveTick::Idle)
            }
        },
        ConnKeepalive::Waiting { expected_by, .. } => {
            if now >= expected_by {
                (state, KeepaliveTick::KickTimedOut)
            } else {
                (state, KeepaliveTick::Idle)
            }
        },
    }
}

/// Run one periodic keepalive step. `fresh_id` is the probe id to use
/// if one goes out; any value in `[0, MAX_KEEPALIVE_ID]` serves.
pub fn keepalive_tick(state: &ConnKeepalive, now: u64, fresh_id: u64) -> (r: (
    ConnKeepalive,
    KeepaliveTick,
))
    requires
        fresh_id <= MAX_KEEPALIVE_ID,
        now + KEEPALIVE_TIMEOUT_MS <= u64::MAX,
    ensures
        r == spec_keepalive_tick(*state, now, fresh_id),
{
    match state {
        ConnKeepalive::Sending { sending_at } => {
            if now >= *sending_at {
                (
                    ConnKeepalive::Waiting {
                        expected_id: fresh_id,
                        expected_by: now + KEEPALIVE_TIMEOUT_MS,
                    },
                    KeepaliveTick::Send { id: fresh_id },
                )
            } else {
                (ConnKeepalive::Sending { sending_at: *sending_at }, KeepaliveTick::Idle)
            }
        },
        ConnKeepalive::Waiting { expected_id, expected_by } => {
            if now >= *expected_by {
                (
                    ConnKeepalive::Waiting {
                        expected_id: *expected_id,
                        expected_by: *expected_by,
                    },
                    KeepaliveTick::KickTimedOut,
                )
            } else {
                (
                    ConnKeepalive::Waiting {
                        expected_id: *expected_id,
                        expected_by: *expected_by,
                    },
                    KeepaliveTick::Idle,
                )
            }
        },
    }
}

/// What a received keepalive echo does: while a probe is outstanding
/// the matching id confirms liveness and schedules the next probe;
/// any other echo is unordered and fatal.
pub open spec fn spec_keepalive_receive(state: ConnKeepalive, id: u64, now: u64) -> (
    ConnKeepalive,
    KeepaliveReply,
) {
    match state {
        ConnKeepalive::Sending { .. } => (state, KeepaliveReply::KickUnordered),
        ConnKeepalive::Waiting { expected_id, .. } => {
            if id == expected_id {
                (
                    ConnKeepalive::Sending { sending_at: (now + KEEPALIVE_INTERVAL_MS) as u64 },
                    KeepaliveReply::Accept,
                )
            } else {
                (state, KeepaliveReply::KickUnordered)
            }
        },
    }
}

/// Process a received keepalive echo.
pub fn keepalive_receive(state: &ConnKeepalive, id: u64, now: u64) -> (r: (
    ConnKeepalive,
    KeepaliveReply,
))
    requires
        now + KEEPALIVE_INTERVAL_MS <= u64::MAX,
    ensures
        r == spec_keepalive_receive(*state, id, now),
{
    match state {
        ConnKeepalive::Sending { sending_at } => {
            (ConnKeepalive::Sending { sending_at: *sending_at }, KeepaliveReply::KickUnordered)
        },
        ConnKeepalive::Waiting { expected_id, expected_by } => {
            if id == *expected_id {
                (
                    ConnKeepalive::Sending { sending_at: now + KEEPALIVE_INTERVAL_MS },
                    KeepaliveReply::Accept,
                )
            } else {
                (
                    ConnKeepalive::Waiting {
                        expected_id: *expected_id,
                        expected_by: *expected_by,
                    },
                    KeepaliveReply::KickUnordered,
                )
            }
        },
    }
}

/// Keepalive correctness: once a probe with id `x` is outstanding, an
/// echo is accepted exactly when it carries `x`, and acceptance
/// schedules the next probe; with no reply by the deadline the
/// connection times out.
pub proof fn lemma_keepalive_correct(state: ConnKeepalive, now: u64, x: u64, echo: u64, later: u64)
    requires
        state matches ConnKeepalive::Sending { sending_at } && now >= sending_at,
    ensures
        ({
            let (waiting, tick) = spec_keepalive_tick(state, now, x);
            &&& tick == KeepaliveTick::Send { id: x }
            &&& spec_keepalive_receive(waiting, echo, later).1 == (if echo == x {
                KeepaliveReply::Accept
            } else {
                KeepaliveReply::KickUnordered
            })
            &&& (echo == x ==> spec_keepalive_receive(waiting, echo, later).0
                == ConnKeepalive::Sending { sending_at: (later + KEEPALIVE_INTERVAL_MS) as u64 })
            &&& (later >= now + KEEPALIVE_TIMEOUT_MS ==> spec_keepalive_tick(waiting, later, x).1
                is KickTimedOut)
        }),
{
}

/// The payload a kick owes the peer: the disconnect packet of the
/// stage the connection is in, or none at all in the pre-login stages.
pub enum KickDisconnect {
    /// Handshake and status have no disconnect payload.
    NoPayload,
    /// The login-stage disconnect, carrying the reason as JSON text.
    LoginJson,
    /// The configuration-stage disconnect, carrying the reason as NBT.
    ConfigPacket,
    /// The play-stage disconnect, carrying the reason as NBT.
    PlayPacket,
}

/// Which disconnect payload each stage owes.
pub open spec fn spec_kick_disconnect(stage: RealStage) -> KickDisconnect {
    match stage {
        RealStage::Handshake => KickDisconnect::NoPayload,
        RealStage::Status => KickDisconnect::NoPayload,
        RealStage::Login => KickDisconnect::LoginJson,
        RealStage::Config => KickDisconnect::ConfigPacket,
        RealStage::Play => KickDisconnect::PlayPacket,
    }
}

/// A colour a kick-payload text component carries.
#[derive(Clone, Copy, PartialEq, Eq, Structural, Debug)]
pub enum KickColour {
    /// An RGB colour.
    Rgb { red: u8, green: u8, blue: u8 },
    /// The dark-grey named colour.
    DarkGrey,
}

/// One text component of the kick payload; rendering to the wire's
/// text format stays with the external codec.
pub struct KickTextPiece {
    /// The component's text.
    pub text: String,
    /// Its colour, if any.
    pub colour: Option<KickColour>,
    /// Whether it is underlined.
    pub underlined: bool,
}

/// Compose the disconnect payload of a kick: the reason in pale green,
/// three blank lines, the underlined footer, a line break, and the
/// timestamp in dark grey. The timestamp string comes from the caller,
/// since only the driver has a clock.
pub fn kick_payload(reason: String, footer: String, timestamp: String) -> (r: Vec<KickTextPiece>)
    ensures
        r@.len() == 5,
        r@[0].text@ == reason@ && r@[0].colour == Some(
            KickColour::Rgb { red: 178, green: 255, blue: 228 },
        ) && !r@[0].underlined,
        r@[1].text@ =~= seq!['\n', '\n', '\n'] && r@[1].colour is None && !r@[1].underlined,
        r@[2].text@ == footer@ && r@[2].colour is None && r@[2].underlined,
        r@[3].text@ =~= seq!['\n'] && r@[3].colour is None && !r@[3].underlined,
        r@[4].text@ == timestamp@ && r@[4].colour == Some(KickColour::DarkGrey) && !r@[
            4
        ].underlined,
{
    proof {
        reveal_strlit("\n\n\n");
        reveal_strlit("\n");
    }
    let blank_lines: String = "\n\n\n".to_owned();
    let line_break: String = "\n".to_owned();
    proof {
        assert(blank_lines@ =~= seq!['\n', '\n', '\n']);
        assert(line_break@ =~= seq!['\n']);
    }
    let mut pieces: Vec<KickTextPiece> = Vec::new();
    pieces.push(
        KickTextPiece {
            text: reason,
            colour: Some(KickColour::Rgb { red: 178, green: 255, blue: 228 }),
            underlined: false,
        },
    );
    pieces.push(KickTextPiece { text: blank_lines, colour: Option::None, underlined: false });
    pieces.push(KickTextPiece { text: footer, colour: Option::None, underlined: true });
    pieces.push(KickTextPiece { text: line_break, colour: Option::None, underlined: false });
    pieces.push(
        KickTextPiece { text: timestamp, colour: Some(KickColour::DarkGrey), underlined: false },
    );
    pieces
}

/// One outbound frame queued for the writer task.
pub struct OutboundFrame {
    /// The stage the codec must be in once this frame is written.
    pub set_stage: packet::SetStage,
    /// The framed bytes, ready for the wire.
    pub bytes: Vec<u8>,
}

/// One client connection as the scheduler sees it: the inbound byte
/// queue, the codec state, the monotone packet stamp, the real stage,
/// and the queues feeding the writer task.
pub struct Connection {
    peer_addr: String,
    data_queue: Vec<u8>,
    compression: codec::CompressionMode,
    cipher_installed: bool,
    packet_index: u128,
    real_stage: RealStage,
    closing: bool,
    outbound: Vec<OutboundFrame>,
    announcements: Vec<packet::NextStage>,
}

/// What one attempt to read a packet off the byte queue gives.
pub enum PacketReadOutcome {
    /// One whole packet body, plain bytes, consumed from the queue.
    Packet { data: Vec<u8> },
    /// The packet's body is deflated: the declared plain length and
    /// the compressed bytes, consumed from the queue, for an external
    /// inflater.
    NeedsInflate { expected_len: u32, data: Vec<u8> },
    /// No whole frame buffered yet; try again next tick.
    Pending,
    /// The stream is not a well-formed frame: a protocol violation.
    Bad,
}

impl Connection {
    /// The peer address string.
    pub closed spec fn peer_addr_view(&self) -> Seq<char> {
        self.peer_addr@
    }

    /// Decrypted-but-unframed inbound bytes.
    pub closed spec fn data_queue_view(&self) -> Seq<u8> {
        self.data_queue@
    }

    /// The negotiated compression mode.
    pub closed spec fn compression_view(&self) -> codec::CompressionMode {
        self.compression
    }

    /// Whether the symmetric cipher has been installed.
    pub closed spec fn spec_cipher_installed(&self) -> bool {
        self.cipher_installed
    }

    /// The monotone stamp of the last inbound packet.
    pub closed spec fn packet_index_view(&self) -> u128 {
        self.packet_index
    }

    /// The stage the connection is really in.
    pub closed spec fn real_stage_view(&self) -> RealStage {
        self.real_stage
    }

    /// Whether the connection is marked for teardown.
    pub closed spec fn spec_closing(&self) -> bool {
        self.closing
    }

    /// Frames queued for the writer task, in submit order.
    pub closed spec fn outbound_view(&self) -> Seq<OutboundFrame> {
        self.outbound@
    }

    /// Stage announcements queued for the writer task, in order.
    pub closed spec fn announcements_view(&self) -> Seq<packet::NextStage> {
        self.announcements@
    }

    /// A fresh connection: handshake stage, nothing buffered, no
    /// compression, no cipher, not closing.
    pub fn new(peer_addr: String) -> (r: Self)
        ensures
            r.peer_addr_view() == peer_addr@,
            r.data_queue_view() =~= Seq::<u8>::empty(),
            r.compression_view() is Plain,
            !r.spec_cipher_installed(),
            r.packet_index_view() == 0,
            r.real_stage_view() is Handshake,
            !r.spec_closing(),
            r.outbound_view() =~= Seq::<OutboundFrame>::empty(),
            r.announcements_view() =~= Seq::<packet::NextStage>::empty(),
    {
        Connection {
            peer_addr,
            data_queue: Vec::new(),
            compression: codec::CompressionMode::Plain,
            cipher_installed: false,
            packet_index: 0,
            real_stage: RealStage::Handshake,
            closing: false,
            outbound: Vec::new(),
            announcements: Vec::new(),
        }
    }

    /// The peer address.
    pub fn peer_addr(&self) -> (r: &String)
        ensures
            r@ == self.peer_addr_view(),
    {
        &self.peer_addr
    }

    /// Mark the connection for teardown; the next close sweep despawns
    /// it.
    pub fn close(&mut self)
        ensures
            final(self).spec_closing(),
            final(self).real_stage_view() == old(self).real_stage_view(),
            final(self).data_queue_view() == old(self).data_queue_view(),
            final(self).packet_index_view() == old(self).packet_index_view(),
            final(self).outbound_view() == old(self).outbound_view(),
            final(self).announcements_view() == old(self).announcements_view(),
            final(self).compression_view() == old(self).compression_view(),
            final(self).spec_cipher_installed() == old(self).spec_cipher_installed(),
            final(self).peer_addr_view() == old(self).peer_addr_view(),
    {
        self.closing = true;
    }

    /// Stamp the next inbound packet: the stamp strictly increases
    /// with every call, giving a total order on this connection's
    /// packets.
    pub fn next_packet_index(&mut self) -> (r: u128)
        requires
            old(self).packet_index_view() < u128::MAX,
        ensures
            final(self).packet_index_view() == old(self).packet_index_view() + 1,
            r == final(self).packet_index_view(),
            r > old(self).packet_index_view(),
            final(self).real_stage_view() == old(self).real_stage_view(),
            final(self).data_queue_view() == old(self).data_queue_view(),
            final(self).spec_closing() == old(self).spec_closing(),
            final(self).outbound_view() == old(self).outbound_view(),
            final(self).announcements_view() == old(self).announcements_view(),
            final(self).compression_view() == old(self).compression_view(),
            final(self).spec_cipher_installed() == old(self).spec_cipher_installed(),
            final(self).peer_addr_view() == old(self).peer_addr_view(),
    {
        self.packet_index = self.packet_index + 1;
        self.packet_index
    }

    /// Append decrypted inbound bytes to the byte queue.
    pub fn ingest_plain(&mut self, bytes: &Vec<u8>)
        ensures
            final(self).data_queue_view() =~= old(self).data_queue_view() + bytes@,
            final(self).real_stage_view() == old(self).real_stage_view(),
            final(self).packet_index_view() == old(self).packet_index_view(),
            final(self).spec_closing() == old(self).spec_closing(),
            final(self).outbound_view() == old(self).outbound_view(),
            final(self).announcements_view() == old(self).announcements_view(),
            final(self).compression_view() == old(self).compression_view(),
            final(self).spec_cipher_installed() == old(self).spec_cipher_installed(),
            final(self).peer_addr_view() == old(self).peer_addr_view(),
    {
        let mut i: usize = 0;
        while i < bytes.len()
            invariant
                i <= bytes@.len(),
                self.data_queue@ =~= old(self).data_queue@ + bytes@.take(i as int),
                self.peer_addr == old(self).peer_addr,
                self.compression == old(self).compression,
                self.cipher_installed == old(self).cipher_installed,
                self.packet_index == old(self).packet_index,
                self.real_stage == old(self).real_stage,
                self.closing == old(self).closing,
                self.outbound@ == old(self).outbound@,
                self.announcements@ == old(self).announcements@,
            decreases bytes@.len() - i,
        {
            self.data_queue.push(bytes[i]);
            proof {
                assert(self.data_queue@ =~= old(self).data_queue@ + bytes@.take(i + 1));
            }
            i = i + 1;
        }
        proof {
            assert(bytes@.take(bytes@.len() as int) =~= bytes@);
        }
    }

    /// Install the negotiated compression mode.
    pub fn set_compression(&mut self, mode: codec::CompressionMode)
        ensures
            final(self).compression_view() == mode,
            final(self).data_queue_view() == old(self).data_queue_view(),
            final(self).real_stage_view() == old(self).real_stage_view(),
            final(self).packet_index_view() == old(self).packet_index_view(),
            final(self).spec_closing() == old(self).spec_closing(),
            final(self).outbound_view() == old(self).outbound_view(),
            final(self).announcements_view() == old(self).announcements_view(),
            final(self).spec_cipher_installed() == old(self).spec_cipher_installed(),
            final(self).peer_addr_view() == old(self).peer_addr_view(),
    {
        self.compression = mode;
    }

    /// Note that the symmetric cipher has been installed; from here on
    /// the driver decrypts inbound bytes before handing them over.
    pub fn set_cipher_installed(&mut self)
        ensures
            final(self).spec_cipher_installed(),
            final(self).data_queue_view() == old(self).data_queue_view(),
            final(self).real_stage_view() == old(self).real_stage_view(),
            final(self).packet_index_view() == old(self).packet_index_view(),
            final(self).spec_closing() == old(self).spec_closing(),
            final(self).outbound_view() == old(self).outbound_view(),
            final(self).announcements_view() == old(self).announcements_view(),
            final(self).compression_view() == old(self).compression_view(),
            final(self).peer_addr_view() == old(self).peer_addr_view(),
    {
        self.cipher_installed = true;
    }

    /// Advance the real stage along an allowed transition.
    pub fn set_real_stage(&mut self, stage: RealStage)
        requires
            stage_allows(old(self).real_stage_view(), stage),
        ensures
            final(self).real_stage_view() == stage,
            final(self).data_queue_view() == old(self).data_queue_view(),
            final(self).packet_index_view() == old(self).packet_index_view(),
            final(self).spec_closing() == old(self).spec_closing(),
            final(self).outbound_view() == old(self).outbound_view(),
            final(self).announcements_view() == old(self).announcements_view(),
            final(self).compression_view() == old(self).compression_view(),
            final(self).spec_cipher_installed() == old(self).spec_cipher_installed(),
            final(self).peer_addr_view() == old(self).peer_addr_view(),
    {
        self.real_stage = stage;
    }

    /// Announce a stage switch to the writer task. Always issued
    /// before the first packet of the new stage is queued.
    pub fn announce_stage(&mut self, next: packet::NextStage)
        ensures
            final(self).announcements_view() =~= old(self).announcements_view().push(next),
            final(self).data_queue_view() == old(self).data_queue_view(),
            final(self).real_stage_view() == old(self).real_stage_view(),
            final(self).packet_index_view() == old(self).packet_index_view(),
            final(self).spec_closing() == old(self).spec_closing(),
            final(self).outbound_view() == old(self).outbound_view(),
            final(self).compression_view() == old(self).compression_view(),
            final(self).spec_cipher_installed() == old(self).spec_cipher_installed(),
            final(self).peer_addr_view() == old(self).peer_addr_view(),
    {
        self.announcements.push(next);
    }

    /// Try to read one packet off the byte queue: scan for a whole
    /// frame, consume it, and undo the compression header.
    pub fn read_packet(&mut self) -> (r: PacketReadOutcome)
        ensures
            final(self).real_stage_view() == old(self).real_stage_view(),
            final(self).packet_index_view() == old(self).packet_index_view(),
            final(self).spec_closing() == old(self).spec_closing(),
            final(self).outbound_view() == old(self).outbound_view(),
            final(self).announcements_view() == old(self).announcements_view(),
            final(self).compression_view() == old(self).compression_view(),
            final(self).spec_cipher_installed() == old(self).spec_cipher_installed(),
            final(self).peer_addr_view() == old(self).peer_addr_view(),
            match codec::spec_scan_frame(old(self).data_queue_view()) {
                codec::FrameScan::Frame { header, len } => {
                    let body = old(self).data_queue_view().subrange(header as int, header + len);
                    &&& final(self).data_queue_view() =~= old(self).data_queue_view().skip(
                        header + len,
                    )
                    &&& match old(self).compression_view() {
                        codec::CompressionMode::Plain => r matches PacketReadOutcome::Packet {
                            data,
                        } && data@ =~= body,
                        codec::CompressionMode::ZLib { .. } => match codec::spec_read_varint(
                            body,
                        ) {
                            codec::VarIntRead::Value { value, consumed } => {
                                if value == 0 {
                                    r matches PacketReadOutcome::Packet { data } && data@
                                        =~= body.skip(consumed as int)
                                } else {
                                    r matches PacketReadOutcome::NeedsInflate {
                                        expected_len,
                                        data,
                                    } && expected_len == value && data@ =~= body.skip(
                                        consumed as int,
                                    )
                                }
                            },
                            _ => r is Bad,
                        },
                    }
                },
                codec::FrameScan::Partial => r is Pending && final(self).data_queue_view() == old(
                    self,
                ).data_queue_view(),
                codec::FrameScan::Malformed => r is Bad && final(self).data_queue_view() == old(
                    self,
                ).data_queue_view(),
            },
    {
        let scanned = codec::take_frame(&mut self.data_queue);
        match scanned {
            Some(body) => {
                match codec::decode_body(&self.compression, body) {
                    codec::BodyDecode::Ready { data } => PacketReadOutcome::Packet { data },
                    codec::BodyDecode::NeedsInflate { expected_len, data } => {
                        PacketReadOutcome::NeedsInflate { expected_len, data }
                    },
                    codec::BodyDecode::Malformed => PacketReadOutcome::Bad,
                }
            },
            None => {
                match codec::scan_frame(&self.data_queue) {
                    codec::FrameScan::Malformed => PacketReadOutcome::Bad,
                    _ => PacketReadOutcome::Pending,
                }
            },
        }
    }

    /// Frame one outbound packet body below the compression threshold
    /// and queue it for the writer under the given stage tag. A body
    /// at or above the threshold travels deflated instead, through
    /// [`Connection::send_packet_deflated`].
    pub fn send_packet(&mut self, set_stage: packet::SetStage, body: &Vec<u8>)
        requires
            body@.len() + 1 < 0x1_0000_0000,
            old(self).compression_view() matches codec::CompressionMode::ZLib { threshold }
                ==> body@.len() < threshold,
        ensures
            final(self).outbound_view().len() == old(self).outbound_view().len() + 1,
            final(self).outbound_view().take(old(self).outbound_view().len() as int) =~= old(
                self,
            ).outbound_view(),
            final(self).outbound_view().last().bytes@ =~= codec::spec_encode_frame(
                old(self).compression_view(),
                body@,
            ),
            final(self).outbound_view().last().set_stage == set_stage,
            final(self).data_queue_view() == old(self).data_queue_view(),
            final(self).real_stage_view() == old(self).real_stage_view(),
            final(self).packet_index_view() == old(self).packet_index_view(),
            final(self).spec_closing() == old(self).spec_closing(),
            final(self).announcements_view() == old(self).announcements_view(),
            final(self).compression_view() == old(self).compression_view(),
            final(self).spec_cipher_installed() == old(self).spec_cipher_installed(),
            final(self).peer_addr_view() == old(self).peer_addr_view(),
    {
        let bytes = codec::encode_frame(&self.compression, body);
        self.outbound.push(OutboundFrame { set_stage, bytes });
    }

    /// Queue a packet that belongs to the connection's current codec
    /// stage.
    pub fn send_packet_noset(&mut self, body: &Vec<u8>)
        requires
            body@.len() + 1 < 0x1_0000_0000,
            old(self).compression_view() matches codec::CompressionMode::ZLib { threshold }
                ==> body@.len() < threshold,
        ensures
            final(self).outbound_view().len() == old(self).outbound_view().len() + 1,
            final(self).outbound_view().take(old(self).outbound_view().len() as int) =~= old(
                self,
            ).outbound_view(),
            final(self).outbound_view().last().bytes@ =~= codec::spec_encode_frame(
                old(self).compression_view(),
                body@,
            ),
            final(self).outbound_view().last().set_stage is NoSet,
            final(self).data_queue_view() == old(self).data_queue_view(),
            final(self).real_stage_view() == old(self).real_stage_view(),
            final(self).packet_index_view() == old(self).packet_index_view(),
            final(self).spec_closing() == old(self).spec_closing(),
            final(self).announcements_view() == old(self).announcements_view(),
            final(self).compression_view() == old(self).compression_view(),
            final(self).spec_cipher_installed() == old(self).spec_cipher_installed(),
            final(self).peer_addr_view() == old(self).peer_addr_view(),
    {
        self.send_packet(packet::SetStage::NoSet, body);
    }

    /// Queue a configuration-stage packet and advance the real stage
    /// to configuration.
    pub fn send_packet_config(&mut self, body: &Vec<u8>)
        requires
            body@.len() + 1 < 0x1_0000_0000,
            old(self).compression_view() matches codec::CompressionMode::ZLib { threshold }
                ==> body@.len() < threshold,
            stage_allows(old(self).real_stage_view(), RealStage::Config),
        ensures
            final(self).outbound_view().len() == old(self).outbound_view().len() + 1,
            final(self).outbound_view().take(old(self).outbound_view().len() as int) =~= old(
                self,
            ).outbound_view(),
            final(self).outbound_view().last().bytes@ =~= codec::spec_encode_frame(
                old(self).compression_view(),
                body@,
            ),
            final(self).outbound_view().last().set_stage is Config,
            final(self).real_stage_view() is Config,
            final(self).data_queue_view() == old(self).data_queue_view(),
            final(self).packet_index_view() == old(self).packet_index_view(),
            final(self).spec_closing() == old(self).spec_closing(),
            final(self).announcements_view() == old(self).announcements_view(),
            final(self).compression_view() == old(self).compression_view(),
            final(self).spec_cipher_installed() == old(self).spec_cipher_installed(),
            final(self).peer_addr_view() == old(self).peer_addr_view(),
    {
        self.send_packet(packet::SetStage::Config, body);
        self.real_stage = RealStage::Config;
    }

    /// Queue a play-stage packet and advance the real stage to play.
    pub fn send_packet_play(&mut self, body: &Vec<u8>)
        requires
            body@.len() + 1 < 0x1_0000_0000,
            old(self).compression_view() matches codec::CompressionMode::ZLib { threshold }
                ==> body@.len() < threshold,
            stage_allows(old(self).real_stage_view(), RealStage::Play),
        ensures
            final(self).outbound_view().len() == old(self).outbound_view().len() + 1,
            final(self).outbound_view().take(old(self).outbound_view().len() as int) =~= old(
                self,
            ).outbound_view(),
            final(self).outbound_view().last().bytes@ =~= codec::spec_encode_frame(
                old(self).compression_view(),
                body@,
            ),
            final(self).outbound_view().last().set_stage is Play,
            final(self).real_stage_view() is Play,
            final(self).data_queue_view() == old(self).data_queue_view(),
            final(self).packet_index_view() == old(self).packet_index_view(),
            final(self).spec_closing() == old(self).spec_closing(),
            final(self).announcements_view() == old(self).announcements_view(),
            final(self).compression_view() == old(self).compression_view(),
            final(self).spec_cipher_installed() == old(self).spec_cipher_installed(),
            final(self).peer_addr_view() == old(self).peer_addr_view(),
    {
        self.send_packet(packet::SetStage::Play, body);
        self.real_stage = RealStage::Play;
    }

    /// Queue a packet body at or above the compression threshold,
    /// already deflated by an external compressor, under the given
    /// stage tag. `plain_len` is the body's length before compression;
    /// only the framing around the deflated bytes is built here.
    pub fn send_packet_deflated(
        &mut self,
        set_stage: packet::SetStage,
        plain_len: u32,
        deflated: &Vec<u8>,
    )
        requires
            deflated@.len() + 5 < 0x1_0000_0000,
            old(self).compression_view() matches codec::CompressionMode::ZLib { threshold }
                ==> plain_len >= threshold,
            old(self).compression_view() is ZLib,
        ensures
            final(self).outbound_view().len() == old(self).outbound_view().len() + 1,
            final(self).outbound_view().take(old(self).outbound_view().len() as int) =~= old(
                self,
            ).outbound_view(),
            final(self).outbound_view().last().bytes@ =~= codec::spec_encode_frame_deflated(
                plain_len,
                deflated@,
            ),
            final(self).outbound_view().last().set_stage == set_stage,
            final(self).data_queue_view() == old(self).data_queue_view(),
            final(self).real_stage_view() == old(self).real_stage_view(),
            final(self).packet_index_view() == old(self).packet_index_view(),
            final(self).spec_closing() == old(self).spec_closing(),
            final(self).announcements_view() == old(self).announcements_view(),
            final(self).compression_view() == old(self).compression_view(),
            final(self).spec_cipher_installed() == old(self).spec_cipher_installed(),
            final(self).peer_addr_view() == old(self).peer_addr_view(),
    {
        let bytes = codec::encode_frame_deflated(plain_len, deflated);
        self.outbound.push(OutboundFrame { set_stage, bytes });
    }

    /// The negotiated compression mode.
    pub fn compression(&self) -> (r: codec::CompressionMode)
        ensures
            r == self.compression_view(),
    {
        self.compression
    }

    /// Mark the connection closing and say which disconnect payload
    /// the kick owes the peer: the current stage's disconnect packet,
    /// or none in the pre-login stages.
    pub fn kick(&mut self) -> (r: KickDisconnect)
        ensures
            final(self).spec_closing(),
            r == spec_kick_disconnect(old(self).real_stage_view()),
            final(self).real_stage_view() == old(self).real_stage_view(),
            final(self).data_queue_view() == old(self).data_queue_view(),
            final(self).packet_index_view() == old(self).packet_index_view(),
            final(self).outbound_view() == old(self).outbound_view(),
            final(self).announcements_view() == old(self).announcements_view(),
            final(self).compression_view() == old(self).compression_view(),
            final(self).spec_cipher_installed() == old(self).spec_cipher_installed(),
            final(self).peer_addr_view() == old(self).peer_addr_view(),
    {
        self.closing = true;
        match self.real_stage {
            RealStage::Handshake => KickDisconnect::NoPayload,
            RealStage::Status => KickDisconnect::NoPayload,
            RealStage::Login => KickDisconnect::LoginJson,
            RealStage::Config => KickDisconnect::ConfigPacket,
            RealStage::Play => KickDisconnect::PlayPacket,
        }
    }

    /// Hand the queued outbound frames to the writer task, in submit
    /// order, and empty the queue.
    pub fn drain_outbound(&mut self) -> (r: Vec<OutboundFrame>)
        ensures
            r@ == old(self).outbound_view(),
            final(self).outbound_view() =~= Seq::<OutboundFrame>::empty(),
            final(self).data_queue_view() == old(self).data_queue_view(),
            final(self).real_stage_view() == old(self).real_stage_view(),
            final(self).packet_index_view() == old(self).packet_index_view(),
            final(self).spec_closing() == old(self).spec_closing(),
            final(self).announcements_view() == old(self).announcements_view(),
            final(self).compression_view() == old(self).compression_view(),
            final(self).spec_cipher_installed() == old(self).spec_cipher_installed(),
            final(self).peer_addr_view() == old(self).peer_addr_view(),
    {
        let mut drained: Vec<OutboundFrame> = Vec::new();
        std::mem::swap(&mut drained, &mut self.outbound);
        drained
    }

    /// Hand the queued stage announcements to the writer task, in
    /// order, and empty the queue.
    pub fn drain_announcements(&mut self) -> (r: Vec<packet::NextStage>)
        ensures
            r@ == old(self).announcements_view(),
            final(self).announcements_view() =~= Seq::<packet::NextStage>::empty(),
            final(self).data_queue_view() == old(self).data_queue_view(),
            final(self).real_stage_view() == old(self).real_stage_view(),
            final(self).packet_index_view() == old(self).packet_index_view(),
            final(self).spec_closing() == old(self).spec_closing(),
            final(self).outbound_view() == old(self).outbound_view(),
            final(self).compression_view() == old(self).compression_view(),
            final(self).spec_cipher_installed() == old(self).spec_cipher_installed(),
            final(self).peer_addr_view() == old(self).peer_addr_view(),
    {
        let mut drained: Vec<packet::NextStage> = Vec::new();
        std::mem::swap(&mut drained, &mut self.announcements);
        drained
    }

    /// Whether the connection is marked for teardown.
    pub fn is_closing(&self) -> (r: bool)
        ensures
            r == self.spec_closing(),
    {
        self.closing
    }

    /// The stage the connection is really in.
    pub fn real_stage(&self) -> (r: RealStage)
        ensures
            r == self.real_stage_view(),
    {
        self.real_stage
    }
}

/// Packet stamps are strictly monotone: of two packets stamped one
/// after the other on the same connection, the earlier carries the
/// smaller index.
pub proof fn lemma_packet_index_monotonic(
    first: Connection,
    second: Connection,
    third: Connection,
    i1: u128,
    i2: u128,
)
    requires
        i1 == second.packet_index_view(),
        second.packet_index_view() == first.packet_index_view() + 1,
        i2 == third.packet_index_view(),
        third.packet_index_view() == second.packet_index_view() + 1,
    ensures
        i1 < i2,
{
}

} // verus!
