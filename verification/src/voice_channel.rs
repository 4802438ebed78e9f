//! Decisions of the Discord voice channel: how gateway events become incoming
//! messages, where a response goes (voice, the text channel or a direct
//! message), the conversation context, and the channel's errors.
use vstd::prelude::*;

use crate::audio::Utterance;
use crate::gateway::{GatewayCommand, GatewayEvent};
use crate::text::{decimal, decimal_string, digit_char, trim, trim_str};
use crate::tts::TtsError;
use crate::voice_config::{
    digits_value, is_ascii_digit, parse_u64, parses_as_u64, unsigned_digits, VoiceMode,
};

verus! {

/// The channel's name.
pub const CHANNEL_NAME: &'static str = "discord-voice";

/// The Discord REST endpoint that opens a direct-message channel.
pub const DM_CHANNELS_URL: &'static str = "https://discord.com/api/v10/users/@me/channels";

/// Errors of a channel.
#[derive(Debug)]
pub enum ChannelError {
    /// The channel could not start.
    StartupFailed { name: String, reason: String },
    /// A message could not be sent.
    SendFailed { name: String, reason: String },
    /// The channel lost its connection.
    Disconnected { name: String, reason: String },
}

/// The metadata of an incoming message, as far as this channel writes and
/// reads it: each key is absent (`None`) or holds a value of its kind.
#[derive(Debug, Clone)]
pub struct MessageMetadata {
    pub is_voice: Option<bool>,
    pub channel_id: Option<String>,
    pub is_dm: Option<bool>,
    pub guild_id: Option<String>,
    pub voice_channel_id: Option<String>,
    pub voice_mode: Option<String>,
}

/// An incoming message from this channel.
#[derive(Debug)]
pub struct IncomingVoiceMessage {
    /// The user who sent or spoke it, as a decimal snowflake.
    pub user_id: String,
    /// The text (typed, or transcribed from speech).
    pub content: String,
    /// The conversation thread: the text or voice channel, as a decimal snowflake.
    pub thread_id: String,
    pub metadata: MessageMetadata,
}

/// The view of an optional string.
pub open spec fn opt_view(o: Option<String>) -> Option<Seq<char>> {
    match o {
        Some(s) => Some(s@),
        None => None,
    }
}

/// The incoming message for a typed message in `channel_id` (of `guild_id`,
/// or a direct message when there is no guild).
pub open spec fn is_text_incoming(
    m: IncomingVoiceMessage,
    guild_id: Option<u64>,
    channel_id: u64,
    user_id: u64,
    content: Seq<char>,
) -> bool {
    &&& m.user_id@ == decimal(user_id as nat)
    &&& m.content@ == content
    &&& m.thread_id@ == decimal(channel_id as nat)
    &&& m.metadata.is_voice == Some(false)
    &&& opt_view(m.metadata.channel_id) == Some(decimal(channel_id as nat))
    &&& m.metadata.is_dm == Some(guild_id is None)
    &&& opt_view(m.metadata.guild_id) == match guild_id {
        Some(g) => Some(decimal(g as nat)),
        None => None,
    }
    &&& m.metadata.voice_channel_id is None
    &&& m.metadata.voice_mode is None
}

/// The incoming message for speech transcribed to `text` in voice channel
/// `channel_id` of `guild_id`.
pub open spec fn is_voice_incoming(
    m: IncomingVoiceMessage,
    guild_id: u64,
    channel_id: u64,
    user_id: u64,
    text: Seq<char>,
) -> bool {
    &&& m.user_id@ == decimal(user_id as nat)
    &&& m.content@ == text
    &&& m.thread_id@ == decimal(channel_id as nat)
    &&& m.metadata.is_voice == Some(true)
    &&& opt_view(m.metadata.voice_channel_id) == Some(decimal(channel_id as nat))
    &&& opt_view(m.metadata.guild_id) == Some(decimal(guild_id as nat))
    &&& opt_view(m.metadata.voice_mode) == Some("listen"@)
    &&& m.metadata.channel_id is None
    &&& m.metadata.is_dm is None
}

/// The incoming message for a typed message in `channel_id` of `guild_id`
/// (a direct message when there is no guild).
pub fn text_incoming(guild_id: Option<u64>, channel_id: u64, user_id: u64, content: String) -> (r:
    IncomingVoiceMessage)
    ensures
        is_text_incoming(r, guild_id, channel_id, user_id, content@),
{
    let metadata = MessageMetadata {
        is_voice: Some(false),
        channel_id: Some(decimal_string(channel_id)),
        is_dm: Some(guild_id.is_none()),
        guild_id: match guild_id {
            Some(g) => Some(decimal_string(g)),
            None => None,
        },
        voice_channel_id: None,
        voice_mode: None,
    };
    IncomingVoiceMessage {
        user_id: decimal_string(user_id),
        content,
        thread_id: decimal_string(channel_id),
        metadata,
    }
}

/// The incoming message for speech transcribed to `text` in voice channel
/// `channel_id` of `guild_id`; none when the text is blank.
pub fn voice_incoming(guild_id: u64, channel_id: u64, user_id: u64, text: String) -> (r: Option<
    IncomingVoiceMessage,
>)
    ensures
        match r {
            Some(m) => trim(text@).len() > 0 && is_voice_incoming(
                m,
                guild_id,
                channel_id,
                user_id,
                text@,
            ),
            None => trim(text@).len() == 0,
        },
{
    if trim_str(text.as_str()).is_empty() {
        return None;
    }
    let metadata = MessageMetadata {
        is_voice: Some(true),
        channel_id: None,
        is_dm: None,
        guild_id: Some(decimal_string(guild_id)),
        voice_channel_id: Some(decimal_string(channel_id)),
        voice_mode: Some("listen".to_owned()),
    };
    Some(
        IncomingVoiceMessage {
            user_id: decimal_string(user_id),
            content: text,
            thread_id: decimal_string(channel_id),
            metadata,
        },
    )
}

/// What the channel does with a gateway event.
#[derive(Debug)]
pub enum EventAction {
    /// Nothing to deliver.
    Ignore,
    /// Deliver this message to the agent.
    Deliver(IncomingVoiceMessage),
    /// Transcribe this utterance, spoken by `user_id` in `channel_id` of `guild_id`.
    Transcribe { guild_id: u64, channel_id: u64, user_id: u64, utterance: Utterance },
}

/// Handle a gateway event: remember the bot's own id when the gateway is
/// ready, deliver typed messages, and have utterances transcribed when a
/// speech-to-text provider is configured (otherwise they are dropped).
pub fn on_gateway_event(
    bot_user_id: &mut Option<u64>,
    stt_configured: bool,
    event: GatewayEvent,
) -> (r: EventAction)
    ensures
        match event {
            GatewayEvent::Ready { bot_user_id: id } => {
                &&& *final(bot_user_id) == Some(id)
                &&& r is Ignore
            },
            GatewayEvent::TextMessage { guild_id, channel_id, user_id, content } => {
                &&& *final(bot_user_id) == *old(bot_user_id)
                &&& r matches EventAction::Deliver(m)
                &&& is_text_incoming(m, guild_id, channel_id, user_id, content@)
            },
            GatewayEvent::UtteranceReady { guild_id, channel_id, user_id, utterance } => {
                &&& *final(bot_user_id) == *old(bot_user_id)
                &&& if stt_configured {
                    r == (EventAction::Transcribe { guild_id, channel_id, user_id, utterance })
                } else {
                    r is Ignore
                }
            },
        },
{
    match event {
        GatewayEvent::Ready { bot_user_id: id } => {
            *bot_user_id = Some(id);
            EventAction::Ignore
        },
        GatewayEvent::TextMessage { guild_id, channel_id, user_id, content } => {
            EventAction::Deliver(text_incoming(guild_id, channel_id, user_id, content))
        },
        GatewayEvent::UtteranceReady { guild_id, channel_id, user_id, utterance } => {
            if stt_configured {
                EventAction::Transcribe { guild_id, channel_id, user_id, utterance }
            } else {
                EventAction::Ignore
            }
        },
    }
}

/// The value of an identifier given as decimal text, or 0 when it is missing
/// or is not a `u64`.
pub open spec fn id_value(s: Option<Seq<char>>) -> u64 {
    match s {
        Some(t) => if parses_as_u64(t) {
            digits_value(unsigned_digits(t)) as u64
        } else {
            0
        },
        None => 0,
    }
}

/// The identifier a metadata value holds, or 0.
pub fn id_or_zero(s: &Option<String>) -> (r: u64)
    ensures
        r == id_value(opt_view(*s)),
{
    match s {
        Some(t) => match parse_u64(t.as_str()) {
            Ok(v) => v,
            Err(_) => 0,
        },
        None => 0,
    }
}

/// Where a response goes.
#[derive(Debug, PartialEq, Eq, Structural)]
pub enum ResponseRoute {
    /// A text message in channel `channel_id`.
    ChannelMessage { channel_id: u64 },
    /// Spoken, through text-to-speech, in the voice channel of `guild_id`.
    Speak { guild_id: u64 },
    /// A direct message to `user_id`.
    DirectMessage { user_id: u64 },
}

/// Where the response to a message goes: typed messages are answered in their
/// channel; voice messages are spoken when the channel speaks (or the response
/// asks for it) and text-to-speech is configured, answered as text in the voice
/// channel when it is not, and answered by direct message when the channel
/// only listens.
pub open spec fn response_route(
    mode: VoiceMode,
    tts_configured: bool,
    metadata: MessageMetadata,
    user_id: Seq<char>,
    force_speak: Option<bool>,
) -> ResponseRoute {
    let is_voice = metadata.is_voice == Some(true);
    let speak = mode == VoiceMode::ListenAndSpeak || force_speak == Some(true);
    if !is_voice {
        ResponseRoute::ChannelMessage { channel_id: id_value(opt_view(metadata.channel_id)) }
    } else if speak {
        if tts_configured {
            ResponseRoute::Speak { guild_id: id_value(opt_view(metadata.guild_id)) }
        } else {
            ResponseRoute::ChannelMessage {
                channel_id: id_value(opt_view(metadata.voice_channel_id)),
            }
        }
    } else {
        ResponseRoute::DirectMessage { user_id: id_value(Some(user_id)) }
    }
}

/// Decide where the response to a message goes; `force_speak` is the
/// response's own request to be spoken, if it makes one.
pub fn route_response(
    mode: VoiceMode,
    tts_configured: bool,
    metadata: &MessageMetadata,
    user_id: &str,
    force_speak: Option<bool>,
) -> (r: ResponseRoute)
    ensures
        r == response_route(mode, tts_configured, *metadata, user_id@, force_speak),
{
    let is_voice = match metadata.is_voice {
        Some(b) => b,
        None => false,
    };
    if !is_voice {
        return ResponseRoute::ChannelMessage { channel_id: id_or_zero(&metadata.channel_id) };
    }
    let forced = match force_speak {
        Some(b) => b,
        None => false,
    };
    let speak = match mode {
        VoiceMode::ListenAndSpeak => true,
        VoiceMode::ListenOnly => forced,
    };
    if speak {
        if tts_configured {
            ResponseRoute::Speak { guild_id: id_or_zero(&metadata.guild_id) }
        } else {
            ResponseRoute::ChannelMessage { channel_id: id_or_zero(&metadata.voice_channel_id) }
        }
    } else {
        let id = match parse_u64(user_id) {
            Ok(v) => v,
            Err(_) => 0,
        };
        ResponseRoute::DirectMessage { user_id: id }
    }
}

/// The command that speaks synthesized audio in the voice channel of `guild_id`.
pub fn speak_command(guild_id: u64, opus_data: Vec<u8>) -> (r: GatewayCommand)
    ensures
        r == (GatewayCommand::Speak { guild_id, opus_data }),
{
    GatewayCommand::Speak { guild_id, opus_data }
}

/// `e` is a `SendFailed` error of this channel with `reason`.
pub open spec fn is_send_failure(e: ChannelError, reason: Seq<char>) -> bool {
    e matches ChannelError::SendFailed { name, reason: r } && name@ == CHANNEL_NAME@ && r@ == reason
}

/// A failure to send, explained as `context: detail`.
pub fn send_failure(context: &str, detail: &str) -> (r: ChannelError)
    ensures
        is_send_failure(r, context@ + ": "@ + detail@),
{
    let mut reason = String::new();
    reason.append(context);
    reason.append(": ");
    reason.append(detail);
    ChannelError::SendFailed { name: CHANNEL_NAME.to_owned(), reason }
}

/// The failure to synthesize a spoken response.
pub fn tts_failure(e: &TtsError) -> (r: ChannelError)
    ensures
        is_send_failure(r, "TTS synthesis failed: "@ + e.message()),
{
    let detail = e.to_string();
    let r = send_failure("TTS synthesis failed", detail.as_str());
    proof {
        reveal_strlit("TTS synthesis failed");
        reveal_strlit(": ");
        reveal_strlit("TTS synthesis failed: ");
        assert("TTS synthesis failed"@ + ": "@ =~= "TTS synthesis failed: "@);
    }
    r
}

/// The gateway no longer takes commands.
pub fn command_channel_closed() -> (r: ChannelError)
    ensures
        r matches ChannelError::Disconnected { name, reason } && name@ == CHANNEL_NAME@ && reason@
            == "Gateway command channel closed"@,
{
    ChannelError::Disconnected {
        name: CHANNEL_NAME.to_owned(),
        reason: "Gateway command channel closed".to_owned(),
    }
}

/// The gateway could not be started, explained by `detail`.
pub fn startup_failure(detail: &str) -> (r: ChannelError)
    ensures
        r matches ChannelError::StartupFailed { name, reason } && name@ == CHANNEL_NAME@ && reason@
            == "Failed to build Serenity client: "@ + detail@,
{
    let mut reason = String::new();
    reason.append("Failed to build Serenity client: ");
    reason.append(detail);
    ChannelError::StartupFailed { name: CHANNEL_NAME.to_owned(), reason }
}

/// The id of the direct-message channel Discord opened, or the error when its
/// reply holds none.
pub fn dm_channel_id(id: Option<String>) -> (r: Result<String, ChannelError>)
    ensures
        match id {
            Some(s) => r matches Ok(t) && t@ == s@,
            None => r matches Err(e) && is_send_failure(e, "Missing channel ID in DM response"@),
        },
{
    match id {
        Some(s) => Ok(s),
        None => Err(
            ChannelError::SendFailed {
                name: CHANNEL_NAME.to_owned(),
                reason: "Missing channel ID in DM response".to_owned(),
            },
        ),
    }
}

/// The REST endpoint that posts a message to channel `channel_id`.
pub fn channel_messages_url(channel_id: &str) -> (r: String)
    ensures
        r@ == "https://discord.com/api/v10/channels/"@ + channel_id@ + "/messages"@,
{
    let mut url = String::new();
    url.append("https://discord.com/api/v10/channels/");
    url.append(channel_id);
    url.append("/messages");
    url
}

/// The authorization header value for the bot token.
pub fn bot_authorization(token: &str) -> (r: String)
    ensures
        r@ == "Bot "@ + token@,
{
    let mut h = String::new();
    h.append("Bot ");
    h.append(token);
    h
}

/// The channel is healthy exactly when it is connected to the gateway.
pub fn health_status(connected: bool) -> (r: Result<(), ChannelError>)
    ensures
        connected ==> r is Ok,
        !connected ==> (r matches Err(ChannelError::Disconnected { name, reason }) && name@
            == CHANNEL_NAME@ && reason@ == "Gateway not connected"@),
{
    if connected {
        Ok(())
    } else {
        Err(
            ChannelError::Disconnected {
                name: CHANNEL_NAME.to_owned(),
                reason: "Gateway not connected".to_owned(),
            },
        )
    }
}

/// The conversation context a message's metadata gives, as (key, value) pairs:
/// its guild and voice channel when known, and whether the input was spoken.
pub open spec fn context_pairs(metadata: MessageMetadata) -> Seq<(Seq<char>, Seq<char>)> {
    let guild: Seq<(Seq<char>, Seq<char>)> = match metadata.guild_id {
        Some(g) => seq![("guild"@, g@)],
        None => seq![],
    };
    let vc: Seq<(Seq<char>, Seq<char>)> = match metadata.voice_channel_id {
        Some(c) => seq![("voice_channel"@, c@)],
        None => seq![],
    };
    let input: Seq<char> = if metadata.is_voice == Some(true) {
        "voice"@
    } else {
        "text"@
    };
    guild + vc + seq![("input_type"@, input)]
}

/// The views of (key, value) string pairs.
pub open spec fn pair_views(v: Seq<(String, String)>) -> Seq<(Seq<char>, Seq<char>)> {
    v.map_values(|p: (String, String)| (p.0@, p.1@))
}

/// The conversation context of a message, as (key, value) pairs.
pub fn conversation_context(metadata: &MessageMetadata) -> (r: Vec<(String, String)>)
    ensures
        pair_views(r@) == context_pairs(*metadata),
{
    let mut ctx: Vec<(String, String)> = Vec::new();
    match &metadata.guild_id {
        Some(g) => ctx.push(("guild".to_owned(), g.clone())),
        None => {},
    }
    match &metadata.voice_channel_id {
        Some(c) => ctx.push(("voice_channel".to_owned(), c.clone())),
        None => {},
    }
    let is_voice = match metadata.is_voice {
        Some(b) => b,
        None => false,
    };
    let input = if is_voice {
        "voice".to_owned()
    } else {
        "text".to_owned()
    };
    ctx.push(("input_type".to_owned(), input));
    assert(pair_views(ctx@) =~= context_pairs(*metadata));
    ctx
}

/// The decimal text of a number parses back to that number.
pub proof fn lemma_decimal_parses_back(n: nat)
    ensures
        unsigned_digits(decimal(n)) == decimal(n),
        decimal(n).len() > 0,
        forall|i: int| 0 <= i < decimal(n).len() ==> is_ascii_digit(#[trigger] decimal(n)[i]),
        digits_value(decimal(n)) == n,
    decreases n,
{
    let digits = seq!['0', '1', '2', '3', '4', '5', '6', '7', '8', '9'];
    assert forall|d: nat| d < 10 implies (digit_char(d) as int) == 48 + d && digit_char(d) != '+' by {
        assert(digit_char(d) == digits[d as int]);
    }
    if n < 10 {
        assert(decimal(n) == seq![digit_char(n)]);
        assert(decimal(n).drop_last() =~= Seq::<char>::empty());
        assert((digit_char(n) as int) == 48 + n);
        assert(digits_value(decimal(n)) == digits_value(decimal(n).drop_last()) * 10 + ((
        decimal(n).last() as int) - 48) as nat);
    } else {
        lemma_decimal_parses_back(n / 10);
        let head = decimal(n / 10);
        assert(decimal(n) == head + seq![digit_char(n % 10)]);
        assert(decimal(n).drop_last() =~= head);
        assert(decimal(n)[0] == head[0]);
        let d = (n % 10) as nat;
        assert((digit_char(d) as int) == 48 + d);
        assert(decimal(n).last() == digit_char(d));
        assert(digits_value(decimal(n)) == digits_value(head) * 10 + ((decimal(n).last() as int)
            - 48) as nat);
        assert(n == (n / 10) * 10 + n % 10);
        assert forall|i: int| 0 <= i < decimal(n).len() implies is_ascii_digit(#[trigger] decimal(n)[i]) by {
            if i < head.len() {
                assert(decimal(n)[i] == head[i]);
            }
        }
    }
}

/// An identifier written out in decimal reads back as itself.
pub proof fn lemma_id_roundtrip(n: u64)
    ensures
        id_value(Some(decimal(n as nat))) == n,
{
    lemma_decimal_parses_back(n as nat);
}

/// Typed messages are answered in their own channel, whatever the mode.
pub proof fn lemma_typed_messages_answered_in_channel(
    mode: VoiceMode,
    tts_configured: bool,
    guild_id: Option<u64>,
    channel_id: u64,
    user_id: u64,
    content: Seq<char>,
    m: IncomingVoiceMessage,
    force_speak: Option<bool>,
)
    requires
        is_text_incoming(m, guild_id, channel_id, user_id, content),
    ensures
        response_route(mode, tts_configured, m.metadata, m.user_id@, force_speak)
            == (ResponseRoute::ChannelMessage { channel_id }),
{
    lemma_id_roundtrip(channel_id);
}

/// A response to speech goes back where the speech came from: spoken in its
/// guild when the channel speaks and can synthesize, written in its voice
/// channel when it cannot, and sent to the speaker directly when the channel
/// only listens (and the response does not ask to be spoken).
pub proof fn lemma_voice_replies_return_to_speaker(
    mode: VoiceMode,
    tts_configured: bool,
    guild_id: u64,
    channel_id: u64,
    user_id: u64,
    text: Seq<char>,
    m: IncomingVoiceMessage,
    force_speak: Option<bool>,
)
    requires
        is_voice_incoming(m, guild_id, channel_id, user_id, text),
    ensures
        response_route(mode, tts_configured, m.metadata, m.user_id@, force_speak) == if mode
            == VoiceMode::ListenAndSpeak || force_speak == Some(true) {
            if tts_configured {
                ResponseRoute::Speak { guild_id }
            } else {
                ResponseRoute::ChannelMessage { channel_id }
            }
        } else {
            ResponseRoute::DirectMessage { user_id }
        },
{
    lemma_id_roundtrip(guild_id);
    lemma_id_roundtrip(channel_id);
    lemma_id_roundtrip(user_id);
}

} // verus!
