# ironclaw_voice

The Discord voice channel and the agent persona system of IronClaw, with their
logic verified by Verus.

- `src/` — the verified library:
  - `audio` — per-SSRC audio buffering, the buffer cap, silence detection;
  - `stt`, `tts` — WAV encoding, sentence splitting, the providers' errors;
  - `voice_config` — the channel's configuration and voice modes;
  - `gateway` — voice state cache, joining on a mention, voice sessions and
    their idle timeout, turning voice ticks into events;
  - `voice_channel` — incoming messages, response routing, conversation
    context, the channel's errors;
  - `personas` — persona types, file validation, the registry, tool filtering
    and shell command patterns (`glob` holds the wildcard matcher);
  - `text`, `tool` — string helpers and tool definitions.
- `app/` — what runs around it: the Serenity/Songbird gateway, the OpenAI
  clients, persona files on disk, the environment.
- `tests/` — tests of the library.
