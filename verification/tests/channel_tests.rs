use ironclaw_voice::audio::{Utterance, SAMPLE_RATE};
use ironclaw_voice::gateway::{GatewayCommand, GatewayEvent};
use ironclaw_voice::tts::TtsError;
use ironclaw_voice::voice_channel::{
    bot_authorization, channel_messages_url, command_channel_closed, conversation_context,
    dm_channel_id, health_status, id_or_zero, on_gateway_event, route_response, send_failure,
    speak_command, startup_failure, text_incoming, tts_failure, voice_incoming, ChannelError,
    EventAction, MessageMetadata, ResponseRoute, CHANNEL_NAME,
};
use ironclaw_voice::voice_config::VoiceMode;

fn empty_meta() -> MessageMetadata {
    MessageMetadata {
        is_voice: None,
        channel_id: None,
        is_dm: None,
        guild_id: None,
        voice_channel_id: None,
        voice_mode: None,
    }
}

#[test]
fn typed_messages_become_incoming() {
    let m = text_incoming(Some(5), 600, 70, "hello".to_string());
    assert_eq!(m.user_id, "70");
    assert_eq!(m.content, "hello");
    assert_eq!(m.thread_id, "600");
    assert_eq!(m.metadata.is_voice, Some(false));
    assert_eq!(m.metadata.channel_id.as_deref(), Some("600"));
    assert_eq!(m.metadata.is_dm, Some(false));
    assert_eq!(m.metadata.guild_id.as_deref(), Some("5"));
    let dm = text_incoming(None, 601, 70, "hi".to_string());
    assert_eq!(dm.metadata.is_dm, Some(true));
    assert!(dm.metadata.guild_id.is_none());
}

#[test]
fn transcripts_become_incoming_unless_blank() {
    let m = voice_incoming(1234567890123, 300, 42, "turn it up".to_string()).unwrap();
    assert_eq!(m.user_id, "42");
    assert_eq!(m.thread_id, "300");
    assert_eq!(m.content, "turn it up");
    assert_eq!(m.metadata.is_voice, Some(true));
    assert_eq!(m.metadata.voice_channel_id.as_deref(), Some("300"));
    assert_eq!(m.metadata.guild_id.as_deref(), Some("1234567890123"));
    assert_eq!(m.metadata.voice_mode.as_deref(), Some("listen"));
    assert!(voice_incoming(1, 2, 3, "  \n ".to_string()).is_none());
    assert!(voice_incoming(1, 2, 3, String::new()).is_none());
}

#[test]
fn gateway_events_are_dispatched() {
    let mut bot = None;
    assert!(matches!(
        on_gateway_event(&mut bot, true, GatewayEvent::Ready { bot_user_id: 9 }),
        EventAction::Ignore
    ));
    assert_eq!(bot, Some(9));
    let u = Utterance { ssrc: 1, user_id: Some(3), pcm: vec![1, 2], sample_rate: SAMPLE_RATE };
    let e = GatewayEvent::UtteranceReady { guild_id: 1, channel_id: 2, user_id: 3, utterance: u };
    match on_gateway_event(&mut bot, true, e) {
        EventAction::Transcribe { guild_id, channel_id, user_id, utterance } => {
            assert_eq!((guild_id, channel_id, user_id), (1, 2, 3));
            assert_eq!(utterance.pcm, vec![1, 2]);
        }
        _ => panic!("expected a transcription"),
    }
    let u = Utterance { ssrc: 1, user_id: None, pcm: vec![1], sample_rate: SAMPLE_RATE };
    let e = GatewayEvent::UtteranceReady { guild_id: 1, channel_id: 2, user_id: 0, utterance: u };
    assert!(matches!(on_gateway_event(&mut bot, false, e), EventAction::Ignore));
    let e = GatewayEvent::TextMessage {
        guild_id: None,
        channel_id: 8,
        user_id: 4,
        content: "yo".to_string(),
    };
    match on_gateway_event(&mut bot, false, e) {
        EventAction::Deliver(m) => {
            assert_eq!(m.content, "yo");
            assert_eq!(m.metadata.is_dm, Some(true));
        }
        _ => panic!("expected a delivery"),
    }
    assert_eq!(bot, Some(9));
}

#[test]
fn responses_are_routed() {
    let text = text_incoming(Some(5), 600, 70, "hello".to_string());
    for mode in [VoiceMode::ListenAndSpeak, VoiceMode::ListenOnly] {
        assert_eq!(
            route_response(mode, true, &text.metadata, &text.user_id, Some(true)),
            ResponseRoute::ChannelMessage { channel_id: 600 }
        );
    }
    let voice = voice_incoming(5, 300, 42, "hi".to_string()).unwrap();
    assert_eq!(
        route_response(VoiceMode::ListenAndSpeak, true, &voice.metadata, &voice.user_id, None),
        ResponseRoute::Speak { guild_id: 5 }
    );
    assert_eq!(
        route_response(VoiceMode::ListenAndSpeak, false, &voice.metadata, &voice.user_id, None),
        ResponseRoute::ChannelMessage { channel_id: 300 }
    );
    assert_eq!(
        route_response(VoiceMode::ListenOnly, true, &voice.metadata, &voice.user_id, None),
        ResponseRoute::DirectMessage { user_id: 42 }
    );
    assert_eq!(
        route_response(VoiceMode::ListenOnly, true, &voice.metadata, &voice.user_id, Some(true)),
        ResponseRoute::Speak { guild_id: 5 }
    );
    assert_eq!(
        route_response(VoiceMode::ListenOnly, true, &voice.metadata, &voice.user_id, Some(false)),
        ResponseRoute::DirectMessage { user_id: 42 }
    );
}

#[test]
fn missing_or_bad_ids_read_as_zero() {
    let meta = empty_meta();
    assert_eq!(
        route_response(VoiceMode::ListenAndSpeak, true, &meta, "x", None),
        ResponseRoute::ChannelMessage { channel_id: 0 }
    );
    let mut meta = empty_meta();
    meta.is_voice = Some(true);
    assert_eq!(
        route_response(VoiceMode::ListenOnly, true, &meta, "not-a-number", None),
        ResponseRoute::DirectMessage { user_id: 0 }
    );
    assert_eq!(id_or_zero(&None), 0);
    assert_eq!(id_or_zero(&Some("abc".to_string())), 0);
    assert_eq!(id_or_zero(&Some("+17".to_string())), 17);
    assert_eq!(id_or_zero(&Some("18446744073709551616".to_string())), 0);
}

#[test]
fn conversation_context_pairs() {
    let voice = voice_incoming(5, 300, 42, "hi".to_string()).unwrap();
    assert_eq!(
        conversation_context(&voice.metadata),
        vec![
            ("guild".to_string(), "5".to_string()),
            ("voice_channel".to_string(), "300".to_string()),
            ("input_type".to_string(), "voice".to_string()),
        ]
    );
    let text = text_incoming(None, 600, 70, "hello".to_string());
    assert_eq!(
        conversation_context(&text.metadata),
        vec![("input_type".to_string(), "text".to_string())]
    );
}

fn parts(e: ChannelError) -> (&'static str, String, String) {
    match e {
        ChannelError::StartupFailed { name, reason } => ("startup", name, reason),
        ChannelError::SendFailed { name, reason } => ("send", name, reason),
        ChannelError::Disconnected { name, reason } => ("disconnected", name, reason),
    }
}

#[test]
fn channel_errors() {
    assert_eq!(CHANNEL_NAME, "discord-voice");
    assert_eq!(
        parts(send_failure("Failed to send DM", "timeout")),
        ("send", "discord-voice".to_string(), "Failed to send DM: timeout".to_string())
    );
    assert_eq!(
        parts(tts_failure(&TtsError::HttpError { reason: "reset".to_string() })),
        (
            "send",
            "discord-voice".to_string(),
            "TTS synthesis failed: TTS HTTP error: reset".to_string()
        )
    );
    assert_eq!(
        parts(command_channel_closed()),
        ("disconnected", "discord-voice".to_string(), "Gateway command channel closed".to_string())
    );
    assert_eq!(
        parts(startup_failure("bad token")),
        (
            "startup",
            "discord-voice".to_string(),
            "Failed to build Serenity client: bad token".to_string()
        )
    );
    assert!(health_status(true).is_ok());
    assert_eq!(
        parts(health_status(false).unwrap_err()),
        ("disconnected", "discord-voice".to_string(), "Gateway not connected".to_string())
    );
    assert_eq!(dm_channel_id(Some("77".to_string())).ok(), Some("77".to_string()));
    assert_eq!(
        parts(dm_channel_id(None).unwrap_err()),
        ("send", "discord-voice".to_string(), "Missing channel ID in DM response".to_string())
    );
}

#[test]
fn rest_endpoints() {
    assert_eq!(
        channel_messages_url("123"),
        "https://discord.com/api/v10/channels/123/messages"
    );
    assert_eq!(bot_authorization("SECRET-REDACTED"), "Bot SECRET-REDACTED");
    match speak_command(4, vec![1, 2, 3]) {
        GatewayCommand::Speak { guild_id, opus_data } => {
            assert_eq!(guild_id, 4);
            assert_eq!(opus_data, vec![1, 2, 3]);
        }
        _ => panic!("expected speak"),
    }
}
