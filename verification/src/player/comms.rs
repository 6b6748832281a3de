//! Text communication requests and the play-stage packets they map
//! to. Sound requests carry floating-point volume and pitch and stay
//! with the driver; the text rendering itself belongs to the external
//! codec, so these carry plain strings.

use vstd::prelude::*;

verus! {

/// A text communication request for one player.
pub enum TextCommsAction {
    /// A chat line.
    Chat { message: String },
    /// An actionbar line.
    Actionbar { message: String },
    /// A title with subtitle and animation timings, in ticks.
    Title { title: String, subtitle: String, fade_in: u32, stay: u32, fade_out: u32 },
}

/// A play-stage packet a communication request maps to.
pub enum CommsSend {
    /// The system-chat packet, plain or actionbar.
    SystemChat { message: String, actionbar: bool },
    /// The title-animation timings.
    SetTitlesAnimation { fade_in: u32, stay: u32, fade_out: u32 },
    /// The subtitle text.
    SetSubtitleText { subtitle: String },
    /// The title text.
    SetTitleText { title: String },
}

/// The packets one request owes, in order: chat and actionbar become
/// one system-chat packet each; a title sends the animation first, so
/// that the subtitle and title texts that follow apply with it.
pub open spec fn spec_comms_sends(action: TextCommsAction) -> Seq<CommsSend> {
    match action {
        TextCommsAction::Chat { message } => seq![
            CommsSend::SystemChat { message, actionbar: false },
        ],
        TextCommsAction::Actionbar { message } => seq![
            CommsSend::SystemChat { message, actionbar: true },
        ],
        TextCommsAction::Title { title, subtitle, fade_in, stay, fade_out } => seq![
            CommsSend::SetTitlesAnimation { fade_in, stay, fade_out },
            CommsSend::SetSubtitleText { subtitle },
            CommsSend::SetTitleText { title },
        ],
    }
}

/// Translate one text communication request into its packets, in send
/// order.
pub fn comms_sends(action: TextCommsAction) -> (r: Vec<CommsSend>)
    ensures
        r@ =~= spec_comms_sends(action),
{
    let mut sends: Vec<CommsSend> = Vec::new();
    match action {
        TextCommsAction::Chat { message } => {
            sends.push(CommsSend::SystemChat { message, actionbar: false });
        },
        TextCommsAction::Actionbar { message } => {
            sends.push(CommsSend::SystemChat { message, actionbar: true });
        },
        TextCommsAction::Title { title, subtitle, fade_in, stay, fade_out } => {
            sends.push(CommsSend::SetTitlesAnimation { fade_in, stay, fade_out });
            sends.push(CommsSend::SetSubtitleText { subtitle });
            sends.push(CommsSend::SetTitleText { title });
        },
    }
    sends
}

} // verus!
