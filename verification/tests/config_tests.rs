use std::str::FromStr;

use ironclaw_voice::voice_config::{
    parse_optional_u64, ConfigError, DiscordVoiceConfig, VoiceEnv, VoiceMode,
};

#[test]
fn voice_mode_from_str_snake_case() {
    assert_eq!(
        VoiceMode::from_str("listen_and_speak").ok(),
        Some(VoiceMode::ListenAndSpeak)
    );
    assert_eq!(
        VoiceMode::from_str("listen_only").ok(),
        Some(VoiceMode::ListenOnly)
    );
}

#[test]
fn voice_mode_from_str_no_underscore() {
    assert_eq!(
        VoiceMode::from_str("listenandspeak").ok(),
        Some(VoiceMode::ListenAndSpeak)
    );
    assert_eq!(
        VoiceMode::from_str("listenonly").ok(),
        Some(VoiceMode::ListenOnly)
    );
}

#[test]
fn voice_mode_from_str_case_insensitive() {
    assert_eq!(
        VoiceMode::from_str("LISTEN_AND_SPEAK").ok(),
        Some(VoiceMode::ListenAndSpeak)
    );
    assert_eq!(
        VoiceMode::from_str("Listen_Only").ok(),
        Some(VoiceMode::ListenOnly)
    );
}

#[test]
fn voice_mode_from_str_invalid() {
    let err = VoiceMode::from_str("push_to_talk");
    assert!(err.is_err());
    let msg = err.err().map(|e| e.to_string()).unwrap_or_default();
    assert!(msg.contains("push_to_talk"));
}

#[test]
fn voice_mode_display_roundtrip() {
    let modes = [VoiceMode::ListenAndSpeak, VoiceMode::ListenOnly];
    for mode in modes {
        let s = mode.to_string();
        let parsed = VoiceMode::from_str(&s);
        assert_eq!(parsed.ok(), Some(mode));
    }
}

#[test]
fn parse_optional_u64_returns_default() {
    // The variable is not set.
    let result = parse_optional_u64("__IRONCLAW_TEST_NONEXISTENT_VAR__", None, 42);
    assert_eq!(result.ok(), Some(42));
}

#[test]
fn config_error_invalid_int_display() {
    let err = ConfigError::InvalidInt {
        name: "TIMEOUT".to_string(),
        source: "abc".parse::<u64>().unwrap_err(),
    };
    assert!(err.to_string().contains("TIMEOUT"));
}

fn env() -> VoiceEnv {
    VoiceEnv {
        mode: None,
        idle_timeout_secs: None,
        silence_threshold_ms: None,
        stt_provider: None,
        tts_provider: None,
        tts_voice: None,
    }
}

#[test]
fn from_env_defaults() {
    let c = DiscordVoiceConfig::from_env(env()).ok().unwrap();
    assert_eq!(c.mode, VoiceMode::ListenAndSpeak);
    assert_eq!(c.idle_timeout_secs, 300);
    assert_eq!(c.silence_threshold_ms, 800);
    assert_eq!(c.stt_provider, "openai");
    assert_eq!(c.tts_provider, "openai");
    assert_eq!(c.tts_voice, "alloy");
}

#[test]
fn from_env_empty_values_count_as_unset() {
    let mut e = env();
    e.mode = Some(String::new());
    e.idle_timeout_secs = Some(String::new());
    e.tts_voice = Some(String::new());
    let c = DiscordVoiceConfig::from_env(e).ok().unwrap();
    assert_eq!(c.mode, VoiceMode::ListenAndSpeak);
    assert_eq!(c.idle_timeout_secs, 300);
    assert_eq!(c.tts_voice, "alloy");
}

#[test]
fn from_env_reads_values() {
    let mut e = env();
    e.mode = Some("Listen_Only".to_string());
    e.idle_timeout_secs = Some("+60".to_string());
    e.silence_threshold_ms = Some("1200".to_string());
    e.stt_provider = Some("local".to_string());
    e.tts_provider = Some("eleven".to_string());
    e.tts_voice = Some("nova".to_string());
    let c = DiscordVoiceConfig::from_env(e).ok().unwrap();
    assert_eq!(c.mode, VoiceMode::ListenOnly);
    assert_eq!(c.idle_timeout_secs, 60);
    assert_eq!(c.silence_threshold_ms, 1200);
    assert_eq!(c.stt_provider, "local");
    assert_eq!(c.tts_provider, "eleven");
    assert_eq!(c.tts_voice, "nova");
}

#[test]
fn from_env_invalid_mode() {
    let mut e = env();
    e.mode = Some("Push_To_Talk".to_string());
    match DiscordVoiceConfig::from_env(e) {
        Err(ConfigError::InvalidVoiceMode { value }) => assert_eq!(value, "push_to_talk"),
        _ => panic!("expected an invalid voice mode"),
    }
}

#[test]
fn from_env_invalid_integers() {
    let mut e = env();
    e.idle_timeout_secs = Some("soon".to_string());
    match DiscordVoiceConfig::from_env(e) {
        Err(ConfigError::InvalidInt { name, .. }) => {
            assert_eq!(name, "DISCORD_VOICE_IDLE_TIMEOUT_SECS")
        }
        _ => panic!("expected an invalid integer"),
    }
    let mut e = env();
    e.silence_threshold_ms = Some("-5".to_string());
    match DiscordVoiceConfig::from_env(e) {
        Err(ConfigError::InvalidInt { name, .. }) => {
            assert_eq!(name, "DISCORD_VOICE_SILENCE_THRESHOLD_MS")
        }
        _ => panic!("expected an invalid integer"),
    }
}

#[test]
fn parse_optional_u64_bounds() {
    assert_eq!(
        parse_optional_u64("N", Some("18446744073709551615".to_string()), 1).ok(),
        Some(u64::MAX)
    );
    assert!(parse_optional_u64("N", Some("18446744073709551616".to_string()), 1).is_err());
    assert!(parse_optional_u64("N", Some(" 5".to_string()), 1).is_err());
}

#[test]
fn config_error_messages() {
    let err = ConfigError::InvalidVoiceMode { value: "x".to_string() };
    assert_eq!(
        err.to_string(),
        "invalid voice mode: x (expected 'listen_and_speak' or 'listen_only')"
    );
    let err = ConfigError::InvalidInt {
        name: "T".to_string(),
        source: "abc".parse::<u64>().unwrap_err(),
    };
    assert_eq!(err.to_string(), "invalid integer for T: invalid digit found in string");
}

#[test]
fn voice_mode_names() {
    assert_eq!(VoiceMode::ListenAndSpeak.as_str(), "listen_and_speak");
    assert_eq!(VoiceMode::ListenOnly.to_string(), "listen_only");
}
