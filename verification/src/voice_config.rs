//! Discord voice channel configuration.
use vstd::prelude::*;

use crate::text::{chars_eq_str, chars_of};

verus! {

/// Outside type: the error of integer parsing (std), carried through unchanged.
#[verifier::external_type_specification]
#[verifier::external_body]
pub struct ExParseIntError(std::num::ParseIntError);

/// Configuration errors.
#[derive(Debug)]
pub enum ConfigError {
    InvalidVoiceMode { value: String },
    InvalidInt { name: String, source: std::num::ParseIntError },
}

/// Whether the bot speaks its replies or only listens.
#[derive(Debug, Clone, Copy, PartialEq, Eq, Structural)]
pub enum VoiceMode {
    ListenAndSpeak,
    ListenOnly,
}

/// The character is an ASCII decimal digit.
pub open spec fn is_ascii_digit(c: char) -> bool {
    48 <= (c as int) <= 57
}

/// The value of a run of decimal digits.
pub open spec fn digits_value(d: Seq<char>) -> nat
    decreases d.len(),
{
    if d.len() == 0 {
        0
    } else {
        digits_value(d.drop_last()) * 10 + ((d.last() as int) - 48) as nat
    }
}

/// The text after an optional leading `+`.
pub open spec fn unsigned_digits(s: Seq<char>) -> Seq<char> {
    if s.len() > 0 && s[0] == '+' {
        s.drop_first()
    } else {
        s
    }
}

/// `s` is an optional `+` followed by one or more ASCII digits whose value fits in a `u64`.
pub open spec fn parses_as_u64(s: Seq<char>) -> bool {
    let d = unsigned_digits(s);
    &&& d.len() > 0
    &&& forall|i: int| 0 <= i < d.len() ==> is_ascii_digit(#[trigger] d[i])
    &&& digits_value(d) <= u64::MAX
}

/// Trusted: `str::parse::<u64>` (std) accepts exactly an optional `+` followed
/// by ASCII digits whose value fits in a `u64`, and returns that value.
#[verifier::external_body]
pub(crate) fn parse_u64(s: &str) -> (r: Result<u64, std::num::ParseIntError>)
    ensures
        (r is Ok) == parses_as_u64(s@),
        r matches Ok(v) ==> v == digits_value(unsigned_digits(s@)),
{
    s.parse::<u64>()
}

/// Trusted: the `Display` text of a `ParseIntError` (std); nothing is stated of it.
#[verifier::external_body]
fn parse_int_error_text(e: &std::num::ParseIntError) -> String {
    format!("{}", e)
}

/// The ASCII lower-case form of a character; other characters are unchanged.
pub open spec fn ascii_lower_char(c: char) -> char {
    if 65 <= (c as int) <= 90 {
        ((c as int) + 32) as char
    } else {
        c
    }
}

/// The ASCII lower-case form of a string.
pub open spec fn ascii_lowercase(s: Seq<char>) -> Seq<char> {
    s.map_values(|c: char| ascii_lower_char(c))
}

/// Trusted: `str::to_ascii_lowercase` (std) maps `A`..`Z` to `a`..`z` and leaves
/// every other character unchanged.
#[verifier::external_body]
fn to_ascii_lowercase(s: &str) -> (r: String)
    ensures
        r@ == ascii_lowercase(s@),
{
    s.to_ascii_lowercase()
}

/// The voice mode a configuration value names, ignoring ASCII case.
pub open spec fn spec_voice_mode(s: Seq<char>) -> Option<VoiceMode> {
    let l = ascii_lowercase(s);
    if l == "listen_and_speak"@ || l == "listenandspeak"@ {
        Some(VoiceMode::ListenAndSpeak)
    } else if l == "listen_only"@ || l == "listenonly"@ {
        Some(VoiceMode::ListenOnly)
    } else {
        None
    }
}

/// The canonical name of a voice mode.
pub open spec fn voice_mode_name(m: VoiceMode) -> Seq<char> {
    match m {
        VoiceMode::ListenAndSpeak => "listen_and_speak"@,
        VoiceMode::ListenOnly => "listen_only"@,
    }
}

impl VoiceMode {
    /// Parses a voice mode (`listen_and_speak`, `listenandspeak`, `listen_only`
    /// or `listenonly`, in any ASCII case); otherwise the lower-cased text is the error.
    pub fn parse(s: &str) -> (r: Result<VoiceMode, ConfigError>)
        ensures
            match r {
                Ok(m) => spec_voice_mode(s@) == Some(m),
                Err(e) => spec_voice_mode(s@) is None && (e matches ConfigError::InvalidVoiceMode {
                    value,
                } && value@ == ascii_lowercase(s@)),
            },
    {
        let lower = to_ascii_lowercase(s);
        let c = chars_of(lower.as_str());
        if chars_eq_str(&c, "listen_and_speak") || chars_eq_str(&c, "listenandspeak") {
            Ok(VoiceMode::ListenAndSpeak)
        } else if chars_eq_str(&c, "listen_only") || chars_eq_str(&c, "listenonly") {
            Ok(VoiceMode::ListenOnly)
        } else {
            Err(ConfigError::InvalidVoiceMode { value: lower })
        }
    }

    /// The canonical name: `listen_and_speak` or `listen_only`.
    pub fn as_str(&self) -> (r: &'static str)
        ensures
            r@ == voice_mode_name(*self),
    {
        match self {
            VoiceMode::ListenAndSpeak => "listen_and_speak",
            VoiceMode::ListenOnly => "listen_only",
        }
    }

    /// The canonical name, as an owned string.
    pub fn to_string(&self) -> (r: String)
        ensures
            r@ == voice_mode_name(*self),
    {
        self.as_str().to_owned()
    }
}

/// Printing a voice mode and parsing the text gives the same mode back.
pub proof fn lemma_voice_mode_roundtrip(m: VoiceMode)
    ensures
        spec_voice_mode(voice_mode_name(m)) == Some(m),
{
    reveal_strlit("listen_and_speak");
    reveal_strlit("listenandspeak");
    reveal_strlit("listen_only");
    reveal_strlit("listenonly");
    assert(ascii_lowercase("listen_and_speak"@) =~= "listen_and_speak"@);
    assert(ascii_lowercase("listen_only"@) =~= "listen_only"@);
}

impl std::str::FromStr for VoiceMode {
    type Err = ConfigError;

    fn from_str(s: &str) -> (r: Result<Self, Self::Err>)
        ensures
            match r {
                Ok(m) => spec_voice_mode(s@) == Some(m),
                Err(e) => spec_voice_mode(s@) is None && (e matches ConfigError::InvalidVoiceMode {
                    value,
                } && value@ == ascii_lowercase(s@)),
            },
    {
        VoiceMode::parse(s)
    }
}

impl ConfigError {
    /// The error message.
    pub fn to_string(&self) -> (r: String)
        ensures
            match self {
                ConfigError::InvalidVoiceMode { value } => r@ == "invalid voice mode: "@ + value@
                    + " (expected 'listen_and_speak' or 'listen_only')"@,
                ConfigError::InvalidInt { name, source } => r@.len() >= ("invalid integer for "@
                    + name@ + ": "@).len() && r@.subrange(
                    0,
                    ("invalid integer for "@ + name@ + ": "@).len() as int,
                ) == "invalid integer for "@ + name@ + ": "@,
            },
    {
        let mut s = String::new();
        match self {
            ConfigError::InvalidVoiceMode { value } => {
                s.append("invalid voice mode: ");
                s.append(value.as_str());
                s.append(" (expected 'listen_and_speak' or 'listen_only')");
            },
            ConfigError::InvalidInt { name, source } => {
                s.append("invalid integer for ");
                s.append(name.as_str());
                s.append(": ");
                let ghost prefix = s@;
                let detail = parse_int_error_text(source);
                s.append(detail.as_str());
                assert(s@.subrange(0, prefix.len() as int) =~= prefix);
            },
        }
        s
    }
}

/// A configured value: set and not empty.
pub open spec fn env_value(v: Option<String>) -> Option<Seq<char>> {
    match v {
        Some(s) => if s@.len() > 0 {
            Some(s@)
        } else {
            None
        },
        None => None,
    }
}

/// A value that is set and not empty; an empty value counts as unset.
pub fn non_empty(v: Option<String>) -> (r: Option<String>)
    ensures
        match r {
            Some(s) => env_value(v) == Some(s@),
            None => env_value(v) is None,
        },
{
    match v {
        Some(s) => if s.as_str().is_empty() {
            None
        } else {
            Some(s)
        },
        None => None,
    }
}

/// The value of an optional integer setting: the default when unset, the
/// parsed value when it parses, nothing otherwise.
pub open spec fn optional_u64(v: Option<Seq<char>>, default: u64) -> Option<u64> {
    match v {
        None => Some(default),
        Some(s) => if parses_as_u64(s) {
            Some(digits_value(unsigned_digits(s)) as u64)
        } else {
            None
        },
    }
}

/// Parses the optional integer setting `name` whose configured value is `value`
/// (unset or empty: `default`).
pub fn parse_optional_u64(name: &str, value: Option<String>, default: u64) -> (r: Result<
    u64,
    ConfigError,
>)
    ensures
        match optional_u64(env_value(value), default) {
            Some(n) => r == Ok::<u64, ConfigError>(n),
            None => (r matches Err(ConfigError::InvalidInt { name: n, .. }) && n@ == name@),
        },
{
    match non_empty(value) {
        Some(v) => match parse_u64(v.as_str()) {
            Ok(n) => Ok(n),
            Err(e) => Err(ConfigError::InvalidInt { name: name.to_owned(), source: e }),
        },
        None => Ok(default),
    }
}

/// The raw values of the voice channel's environment variables
/// (`DISCORD_VOICE_MODE`, `DISCORD_VOICE_IDLE_TIMEOUT_SECS`,
/// `DISCORD_VOICE_SILENCE_THRESHOLD_MS`, `DISCORD_VOICE_STT_PROVIDER`,
/// `DISCORD_VOICE_TTS_PROVIDER`, `DISCORD_VOICE_TTS_VOICE`), as read.
#[derive(Debug, Clone)]
pub struct VoiceEnv {
    pub mode: Option<String>,
    pub idle_timeout_secs: Option<String>,
    pub silence_threshold_ms: Option<String>,
    pub stt_provider: Option<String>,
    pub tts_provider: Option<String>,
    pub tts_voice: Option<String>,
}

/// Discord voice channel configuration.
#[derive(Debug, Clone)]
pub struct DiscordVoiceConfig {
    pub mode: VoiceMode,
    pub idle_timeout_secs: u64,
    pub silence_threshold_ms: u64,
    pub stt_provider: String,
    pub tts_provider: String,
    pub tts_voice: String,
}

/// A text setting: its configured value, or the default.
pub open spec fn text_or(v: Option<String>, default: Seq<char>) -> Seq<char> {
    match env_value(v) {
        Some(s) => s,
        None => default,
    }
}

/// The voice mode setting: unset means `ListenAndSpeak`.
pub open spec fn mode_setting(v: Option<String>) -> Option<VoiceMode> {
    match env_value(v) {
        Some(s) => spec_voice_mode(s),
        None => Some(VoiceMode::ListenAndSpeak),
    }
}

fn text_or_default(v: Option<String>, default: &str) -> (r: String)
    ensures
        r@ == text_or(v, default@),
{
    match non_empty(v) {
        Some(s) => s,
        None => default.to_owned(),
    }
}

impl DiscordVoiceConfig {
    /// Builds the configuration from the environment's values; unset or empty
    /// values take their defaults (listen and speak, 300 s idle timeout, 800 ms
    /// silence threshold, `openai` providers, voice `alloy`). The bot token is
    /// handled separately.
    pub fn from_env(env: VoiceEnv) -> (r: Result<Self, ConfigError>)
        ensures
            match (
                mode_setting(env.mode),
                optional_u64(env_value(env.idle_timeout_secs), 300),
                optional_u64(env_value(env.silence_threshold_ms), 800),
            ) {
                (Some(m), Some(idle), Some(silence)) => (r matches Ok(c) && c.mode == m
                    && c.idle_timeout_secs == idle && c.silence_threshold_ms == silence
                    && c.stt_provider@ == text_or(env.stt_provider, "openai"@) && c.tts_provider@
                    == text_or(env.tts_provider, "openai"@) && c.tts_voice@ == text_or(
                    env.tts_voice,
                    "alloy"@,
                )),
                (None, _, _) => r matches Err(ConfigError::InvalidVoiceMode { .. }),
                (Some(_), None, _) => (r matches Err(ConfigError::InvalidInt { name, .. })
                    && name@ == "DISCORD_VOICE_IDLE_TIMEOUT_SECS"@),
                (Some(_), Some(_), None) => (r matches Err(ConfigError::InvalidInt { name, .. })
                    && name@ == "DISCORD_VOICE_SILENCE_THRESHOLD_MS"@),
            },
    {
        let VoiceEnv {
            mode,
            idle_timeout_secs,
            silence_threshold_ms,
            stt_provider,
            tts_provider,
            tts_voice,
        } = env;
        let mode = match non_empty(mode) {
            Some(v) => VoiceMode::parse(v.as_str())?,
            None => VoiceMode::ListenAndSpeak,
        };
        let idle_timeout_secs = parse_optional_u64(
            "DISCORD_VOICE_IDLE_TIMEOUT_SECS",
            idle_timeout_secs,
            300,
        )?;
        let silence_threshold_ms = parse_optional_u64(
            "DISCORD_VOICE_SILENCE_THRESHOLD_MS",
            silence_threshold_ms,
            800,
        )?;
        let stt_provider = text_or_default(stt_provider, "openai");
        let tts_provider = text_or_default(tts_provider, "openai");
        let tts_voice = text_or_default(tts_voice, "alloy");
        Ok(DiscordVoiceConfig {
            mode,
            idle_timeout_secs,
            silence_threshold_ms,
            stt_provider,
            tts_provider,
            tts_voice,
        })
    }
}

} // verus!
