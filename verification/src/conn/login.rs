//! The login pipeline: hello, compression negotiation, key exchange,
//! session verification, and the configuration handoff into play.
//!
//! The outside work of each step — RSA decryption, the session
//! server's report, packet encoding — happens beyond the library and
//! comes back as plain-valued events; every decision between those
//! events is made here.

use vstd::prelude::*;

verus! {

/// One signed profile property of an authenticated player.
pub struct ProfileProperty {
    /// Property name.
    pub name: String,
    /// Property value.
    pub value: String,
    /// Signature, if the session server provided one.
    pub signature: Option<String>,
}

/// The login-stage state of one connection.
pub enum ConnStateLogin {
    /// Nothing received yet.
    WaitingForHello,
    /// Compression and the encryption request are out; the key
    /// response is awaited. The RSA key pair lives with the driver;
    /// the state keeps the verify token it must see back.
    ExchangingKeys { username: String, verify_token: [u8; 4] },
    /// A session verification is in flight.
    CheckingMojauth,
    /// A verified identity, not yet announced.
    HandleMojauth { uuid: u128, username: String, props: Vec<ProfileProperty> },
    /// The login-finished packet is out; the acknowledgement is
    /// awaited.
    FinishingLogin { uuid: u128, username: String, props: Vec<ProfileProperty> },
    /// Configuration data is out; the client's finish-configuration is
    /// awaited.
    FinishingConfig { uuid: u128, username: String, props: Vec<ProfileProperty> },
}

/// What the login machine hears. Decrypted values come from the
/// driver, which holds the RSA key pair.
pub enum LoginEvent {
    /// The scheduler tick itself, with no packet.
    Tick,
    /// The client's hello.
    Hello { username: String },
    /// The client's key response, with both RSA blobs decrypted by the
    /// driver; `None` marks a failed decryption.
    Key { decrypted_verify_token: Option<Vec<u8>>, decrypted_secret: Option<Vec<u8>> },
    /// The session server verified the player.
    MojauthOk { uuid: u128, username: String, props: Vec<ProfileProperty> },
    /// The session server rejected the player.
    MojauthErr { message: String },
    /// The client acknowledged the login.
    LoginAcknowledged,
    /// The client finished configuration.
    FinishConfiguration,
    /// Any other configuration-stage packet while finishing.
    OtherConfigPacket,
}

/// Why a login-stage kick happens. The driver renders the reason text.
pub enum LoginKick {
    /// New connections are being rejected, with the configured reason.
    Rejected,
    /// The server is over its connection limit.
    ServerFull,
    /// The decrypted verify token did not match the challenge.
    KeyVerifyFailed,
    /// The shared secret could not be decrypted.
    SecretDecryptFailed,
    /// Session verification failed with this message.
    AuthFailed { message: String },
}

/// What the login machine asks the driver to do, in order.
pub enum LoginAction {
    /// Send the login-compression packet with this threshold.
    SendLoginCompression { threshold: usize },
    /// Enable ZLib framing at this threshold from the next packet on.
    EnableCompression { threshold: usize },
    /// Send the encryption request carrying the server id, public key
    /// and this verify token.
    SendEncryptionRequest { verify_token: [u8; 4], should_auth: bool },
    /// Install the symmetric cipher built from this shared secret.
    InstallCipher { secret: Vec<u8> },
    /// Start an online session verification for this player.
    BeginMojauth { username: String },
    /// Resolve an offline profile for this player.
    ResolveOffline { username: String },
    /// Send the login-finished packet for this identity.
    SendLoginFinished { uuid: u128, username: String },
    /// Advance the real stage to configuration and announce it to the
    /// writer.
    EnterConfigStage,
    /// Send the server-brand custom payload.
    SendBrand,
    /// Send the known-packs selection.
    SendSelectKnownPacks,
    /// Send the prebuilt registry-data packets.
    SendRegistryData,
    /// Create the player record, the dirty chunk centre at the origin,
    /// and the minimum view distance.
    CreatePlayer { uuid: u128, username: String },
    /// Send the finish-configuration packet.
    SendFinishConfiguration,
    /// Advance the real stage to play.
    EnterPlayStage,
    /// Attach the play state and schedule the first keepalive probe.
    StartKeepalive,
    /// Announce the switch to play on the stage channel.
    AnnouncePlayStage,
    /// Emit the player-joined event upstream.
    EmitPlayerJoined,
    /// Send the play-login packet for the configured dimension.
    SendLoginPlay,
    /// Send the player-info update adding this player.
    SendPlayerInfo { uuid: u128, username: String, props: Vec<ProfileProperty> },
    /// Send the add-entity packet for the player's own entity.
    SendAddEntity { uuid: u128 },
    /// Send the wait-for-chunks game event.
    SendGameEventWaitForChunks,
    /// Forward the packet upstream as a packet-read event.
    ForwardPacket,
    /// Kick the peer for this reason.
    Kick { reason: LoginKick },
}

/// The admission and negotiation settings the login machine reads.
pub struct LoginSettings {
    /// Whether new connections are being rejected.
    pub reject_new_conns: bool,
    /// Whether the connection count is over the configured maximum.
    pub over_capacity: bool,
    /// The compression threshold to negotiate.
    pub compress_threshold: usize,
    /// Whether to verify the session with the authentication server.
    pub mojauth_enabled: bool,
}

/// One login step: what the state machine does with an event, and the
/// actions it owes the driver, in order. Admission control answers a
/// hello with a single kick and nothing after it: a rejected or
/// over-capacity connection stays at the hello state and negotiates
/// nothing.
pub open spec fn spec_login_step(
    state: ConnStateLogin,
    event: LoginEvent,
    cfg: LoginSettings,
    fresh_verify_token: [u8; 4],
) -> (Option<ConnStateLogin>, Seq<LoginAction>) {
    match state {
        ConnStateLogin::WaitingForHello => match event {
            LoginEvent::Hello { username } => {
                if cfg.reject_new_conns {
                    (
                        Some(ConnStateLogin::WaitingForHello),
                        seq![LoginAction::Kick { reason: LoginKick::Rejected }],
                    )
                } else if cfg.over_capacity {
                    (
                        Some(ConnStateLogin::WaitingForHello),
                        seq![LoginAction::Kick { reason: LoginKick::ServerFull }],
                    )
                } else {
                    (
                        Some(
                            ConnStateLogin::ExchangingKeys {
                                username,
                                verify_token: fresh_verify_token,
                            },
                        ),
                        seq![
                            LoginAction::SendLoginCompression {
                                threshold: cfg.compress_threshold,
                            },
                            LoginAction::EnableCompression { threshold: cfg.compress_threshold },
                            LoginAction::SendEncryptionRequest {
                                verify_token: fresh_verify_token,
                                should_auth: cfg.mojauth_enabled,
                            },
                        ],
                    )
                }
            },
            _ => (Some(state), Seq::empty()),
        },
        ConnStateLogin::ExchangingKeys { username, verify_token } => match event {
            LoginEvent::Key { decrypted_verify_token, decrypted_secret } => {
                if !(decrypted_verify_token matches Some(v) && v@ =~= verify_token@) {
                    (
                        Some(ConnStateLogin::ExchangingKeys { username, verify_token }),
                        seq![LoginAction::Kick { reason: LoginKick::KeyVerifyFailed }],
                    )
                } else {
                    match decrypted_secret {
                        Option::None => (
                            Some(ConnStateLogin::ExchangingKeys { username, verify_token }),
                            seq![LoginAction::Kick { reason: LoginKick::SecretDecryptFailed }],
                        ),
                        Option::Some(secret) => {
                            if cfg.mojauth_enabled {
                                (
                                    Some(ConnStateLogin::CheckingMojauth),
                                    seq![
                                        LoginAction::InstallCipher { secret },
                                        LoginAction::BeginMojauth { username },
                                    ],
                                )
                            } else {
                                (
                                    Some(ConnStateLogin::CheckingMojauth),
                                    seq![
                                        LoginAction::InstallCipher { secret },
                                        LoginAction::ResolveOffline { username },
                                    ],
                                )
                            }
                        },
                    }
                }
            },
            _ => (Some(ConnStateLogin::ExchangingKeys { username, verify_token }), Seq::empty()),
        },
        ConnStateLogin::CheckingMojauth => match event {
            LoginEvent::MojauthOk { uuid, username, props } => (
                Some(ConnStateLogin::HandleMojauth { uuid, username, props }),
                Seq::empty(),
            ),
            LoginEvent::MojauthErr { message } => (
                Some(ConnStateLogin::CheckingMojauth),
                seq![LoginAction::Kick { reason: LoginKick::AuthFailed { message } }],
            ),
            _ => (Some(ConnStateLogin::CheckingMojauth), Seq::empty()),
        },
        ConnStateLogin::HandleMojauth { uuid, username, props } => match event {
            LoginEvent::Tick => (
                Some(ConnStateLogin::FinishingLogin { uuid, username, props }),
                seq![LoginAction::SendLoginFinished { uuid, username }],
            ),
            _ => (Some(ConnStateLogin::HandleMojauth { uuid, username, props }), Seq::empty()),
        },
        ConnStateLogin::FinishingLogin { uuid, username, props } => match event {
            LoginEvent::LoginAcknowledged => (
                Some(ConnStateLogin::FinishingConfig { uuid, username, props }),
                seq![
                    LoginAction::EnterConfigStage,
                    LoginAction::SendBrand,
                    LoginAction::SendSelectKnownPacks,
                    LoginAction::SendRegistryData,
                    LoginAction::CreatePlayer { uuid, username },
                    LoginAction::SendFinishConfiguration,
                ],
            ),
            _ => (Some(ConnStateLogin::FinishingLogin { uuid, username, props }), Seq::empty()),
        },
        ConnStateLogin::FinishingConfig { uuid, username, props } => match event {
            LoginEvent::FinishConfiguration => (
                Option::None,
                seq![
                    LoginAction::EnterPlayStage,
                    LoginAction::StartKeepalive,
                    LoginAction::EmitPlayerJoined,
                    LoginAction::AnnouncePlayStage,
                    LoginAction::SendLoginPlay,
                    LoginAction::SendPlayerInfo { uuid, username, props },
                    LoginAction::SendAddEntity { uuid },
                    LoginAction::SendGameEventWaitForChunks,
                ],
            ),
            LoginEvent::OtherConfigPacket => (
                Some(ConnStateLogin::FinishingConfig { uuid, username, props }),
                seq![LoginAction::ForwardPacket],
            ),
            _ => (Some(ConnStateLogin::FinishingConfig { uuid, username, props }), Seq::empty()),
        },
    }
}

/// Compare a decrypted token against the issued four-byte challenge.
fn token_matches(candidate: &Option<Vec<u8>>, verify_token: &[u8; 4]) -> (r: bool)
    ensures
        r == (candidate matches Some(v) && v@ =~= verify_token@),
{
    match candidate {
        Option::Some(v) => {
            if v.len() != 4 {
                proof {
                    assert(verify_token@.len() == 4);
                }
                return false;
            }
            let ok = v[0] == verify_token[0] && v[1] == verify_token[1] && v[2] == verify_token[2]
                && v[3] == verify_token[3];
            proof {
                if ok {
                    assert(v@ =~= verify_token@);
                }
            }
            ok
        },
        Option::None => false,
    }
}

/// Run one login step, as [`spec_login_step`] lays it out. `None` for
/// the new state means login is complete and the play state takes
/// over.
pub fn login_step(
    state: ConnStateLogin,
    event: LoginEvent,
    cfg: &LoginSettings,
    fresh_verify_token: [u8; 4],
) -> (r: (Option<ConnStateLogin>, Vec<LoginAction>))
    ensures
        r.0 == spec_login_step(state, event, *cfg, fresh_verify_token).0,
        r.1@ =~= spec_login_step(state, event, *cfg, fresh_verify_token).1,
{
    match state {
        ConnStateLogin::WaitingForHello => {
            match event {
                LoginEvent::Hello { username } => {
                    let mut actions: Vec<LoginAction> = Vec::new();
                    if cfg.reject_new_conns {
                        actions.push(LoginAction::Kick { reason: LoginKick::Rejected });
                        (Some(ConnStateLogin::WaitingForHello), actions)
                    } else if cfg.over_capacity {
                        actions.push(LoginAction::Kick { reason: LoginKick::ServerFull });
                        (Some(ConnStateLogin::WaitingForHello), actions)
                    } else {
                        actions.push(
                            LoginAction::SendLoginCompression {
                                threshold: cfg.compress_threshold,
                            },
                        );
                        actions.push(
                            LoginAction::EnableCompression { threshold: cfg.compress_threshold },
                        );
                        actions.push(
                            LoginAction::SendEncryptionRequest {
                                verify_token: fresh_verify_token,
                                should_auth: cfg.mojauth_enabled,
                            },
                        );
                        let next = ConnStateLogin::ExchangingKeys {
                            username,
                            verify_token: fresh_verify_token,
                        };
                        (Some(next), actions)
                    }
                },
                _ => (Some(ConnStateLogin::WaitingForHello), Vec::new()),
            }
        },
        ConnStateLogin::ExchangingKeys { username, verify_token } => {
            match event {
                LoginEvent::Key { decrypted_verify_token, decrypted_secret } => {
                    if !token_matches(&decrypted_verify_token, &verify_token) {
                        let mut actions: Vec<LoginAction> = Vec::new();
                        actions.push(LoginAction::Kick { reason: LoginKick::KeyVerifyFailed });
                        (Some(ConnStateLogin::ExchangingKeys { username, verify_token }), actions)
                    } else {
                        match decrypted_secret {
                            Option::None => {
                                let mut actions: Vec<LoginAction> = Vec::new();
                                actions.push(
                                    LoginAction::Kick { reason: LoginKick::SecretDecryptFailed },
                                );
                                (
                                    Some(
                                        ConnStateLogin::ExchangingKeys { username, verify_token },
                                    ),
                                    actions,
                                )
                            },
                            Option::Some(secret) => {
                                let mut actions: Vec<LoginAction> = Vec::new();
                                actions.push(LoginAction::InstallCipher { secret });
                                if cfg.mojauth_enabled {
                                    actions.push(LoginAction::BeginMojauth { username });
                                } else {
                                    actions.push(LoginAction::ResolveOffline { username });
                                }
                                (Some(ConnStateLogin::CheckingMojauth), actions)
                            },
                        }
                    }
                },
                _ => (Some(ConnStateLogin::ExchangingKeys { username, verify_token }), Vec::new()),
            }
        },
        ConnStateLogin::CheckingMojauth => {
            match event {
                LoginEvent::MojauthOk { uuid, username, props } => {
                    (Some(ConnStateLogin::HandleMojauth { uuid, username, props }), Vec::new())
                },
                LoginEvent::MojauthErr { message } => {
                    let mut actions: Vec<LoginAction> = Vec::new();
                    actions.push(LoginAction::Kick { reason: LoginKick::AuthFailed { message } });
                    (Some(ConnStateLogin::CheckingMojauth), actions)
                },
                _ => (Some(ConnStateLogin::CheckingMojauth), Vec::new()),
            }
        },
        ConnStateLogin::HandleMojauth { uuid, username, props } => {
            match event {
                LoginEvent::Tick => {
                    let mut actions: Vec<LoginAction> = Vec::new();
                    let announced = username.clone();
                    actions.push(LoginAction::SendLoginFinished { uuid, username: announced });
                    (Some(ConnStateLogin::FinishingLogin { uuid, username, props }), actions)
                },
                _ => (Some(ConnStateLogin::HandleMojauth { uuid, username, props }), Vec::new()),
            }
        },
        ConnStateLogin::FinishingLogin { uuid, username, props } => {
            match event {
                LoginEvent::LoginAcknowledged => {
                    let mut actions: Vec<LoginAction> = Vec::new();
                    actions.push(LoginAction::EnterConfigStage);
                    actions.push(LoginAction::SendBrand);
                    actions.push(LoginAction::SendSelectKnownPacks);
                    actions.push(LoginAction::SendRegistryData);
                    let created = username.clone();
                    actions.push(LoginAction::CreatePlayer { uuid, username: created });
                    actions.push(LoginAction::SendFinishConfiguration);
                    (Some(ConnStateLogin::FinishingConfig { uuid, username, props }), actions)
                },
                _ => (Some(ConnStateLogin::FinishingLogin { uuid, username, props }), Vec::new()),
            }
        },
        ConnStateLogin::FinishingConfig { uuid, username, props } => {
            match event {
                LoginEvent::FinishConfiguration => {
                    let mut actions: Vec<LoginAction> = Vec::new();
                    actions.push(LoginAction::EnterPlayStage);
                    actions.push(LoginAction::StartKeepalive);
                    actions.push(LoginAction::EmitPlayerJoined);
                    actions.push(LoginAction::AnnouncePlayStage);
                    actions.push(LoginAction::SendLoginPlay);
                    actions.push(LoginAction::SendPlayerInfo { uuid, username, props });
                    actions.push(LoginAction::SendAddEntity { uuid });
                    actions.push(LoginAction::SendGameEventWaitForChunks);
                    (Option::None, actions)
                },
                LoginEvent::OtherConfigPacket => {
                    let mut actions: Vec<LoginAction> = Vec::new();
                    actions.push(LoginAction::ForwardPacket);
                    (Some(ConnStateLogin::FinishingConfig { uuid, username, props }), actions)
                },
                _ => (Some(ConnStateLogin::FinishingConfig { uuid, username, props }), Vec::new()),
            }
        },
    }
}

} // verus!
