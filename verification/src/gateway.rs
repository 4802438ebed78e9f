//! Decisions of the Discord voice gateway: who sits in which voice channel,
//! when the bot joins a channel on a mention, which voice sessions are active
//! and when an idle one is left, and how captured audio becomes events.
//!
//! Guild, channel and user identifiers are Discord snowflakes, held as `u64`.
use vstd::prelude::*;
use std::collections::HashMap;

use crate::audio::{
    buffer_or_empty, drain_outcome, utterance_of, AudioPipeline, BufferState, Utterance,
    MAX_SAMPLES,
};

verus! {

broadcast use vstd::std_specs::hash::group_hash_axioms;

/// Commands sent from the channel to the gateway task.
#[derive(Debug)]
pub enum GatewayCommand {
    /// Speak audio (Opus bytes) in the given guild's active voice channel.
    Speak { guild_id: u64, opus_data: Vec<u8> },
    /// Leave a specific guild's voice channel.
    Leave { guild_id: u64 },
    /// Shut down the gateway.
    Shutdown,
}

/// Events produced by the gateway for the channel.
#[derive(Debug)]
#[allow(inconsistent_fields)]
pub enum GatewayEvent {
    /// A user finished speaking (utterance ready for speech-to-text).
    UtteranceReady { guild_id: u64, channel_id: u64, user_id: u64, utterance: Utterance },
    /// The gateway is connected and ready.
    Ready { bot_user_id: u64 },
    /// A text message arrived, in a guild channel or in a direct message.
    TextMessage { guild_id: Option<u64>, channel_id: u64, user_id: u64, content: String },
}

/// Voice state cache: guild → (user → voice channel).
pub struct VoiceStates {
    guilds: HashMap<u64, HashMap<u64, u64>>,
}

/// The users of guild `guild_id` in `m`, or none.
pub open spec fn guild_or_empty(m: Map<u64, Map<u64, u64>>, guild_id: u64) -> Map<u64, u64> {
    if m.contains_key(guild_id) {
        m[guild_id]
    } else {
        Map::empty()
    }
}

/// The voice channel that `m` records for `user_id` in `guild_id`.
pub open spec fn channel_in(
    m: Map<u64, Map<u64, u64>>,
    guild_id: u64,
    user_id: u64,
) -> Option<u64> {
    if m.contains_key(guild_id) && m[guild_id].contains_key(user_id) {
        Some(m[guild_id][user_id])
    } else {
        None
    }
}

/// The cache after a voice state update: a user joining or moving to a channel
/// is recorded there, a user leaving voice is forgotten. The guild gets an entry
/// either way; an update outside any guild changes nothing.
pub open spec fn after_voice_update(
    m: Map<u64, Map<u64, u64>>,
    guild_id: Option<u64>,
    user_id: u64,
    channel_id: Option<u64>,
) -> Map<u64, Map<u64, u64>> {
    match guild_id {
        None => m,
        Some(g) => m.insert(
            g,
            match channel_id {
                Some(c) => guild_or_empty(m, g).insert(user_id, c),
                None => guild_or_empty(m, g).remove(user_id),
            },
        ),
    }
}

impl VoiceStates {
    /// The cache as a map of maps.
    pub closed spec fn view_map(&self) -> Map<u64, Map<u64, u64>> {
        self.guilds@.map_values(|g: HashMap<u64, u64>| g@)
    }

    /// An empty cache.
    pub fn new() -> (r: Self)
        ensures
            r.view_map() == Map::<u64, Map<u64, u64>>::empty(),
    {
        let r = VoiceStates { guilds: HashMap::new() };
        assert(r.view_map() =~= Map::<u64, Map<u64, u64>>::empty());
        r
    }

    /// Record a voice state update of `user_id` in `guild_id`: `channel_id` is
    /// the channel the user is now in, `None` when the user left voice.
    pub fn update(&mut self, guild_id: Option<u64>, user_id: u64, channel_id: Option<u64>)
        ensures
            final(self).view_map() == after_voice_update(
                old(self).view_map(),
                guild_id,
                user_id,
                channel_id,
            ),
    {
        match guild_id {
            None => {},
            Some(g) => {
                let ghost before = self.guilds@;
                let mut users = match self.guilds.remove(&g) {
                    Some(users) => users,
                    None => HashMap::new(),
                };
                assert(users@ == guild_or_empty(old(self).view_map(), g));
                match channel_id {
                    Some(c) => {
                        users.insert(user_id, c);
                    },
                    None => {
                        users.remove(&user_id);
                    },
                }
                self.guilds.insert(g, users);
                assert(self.guilds@ == before.insert(g, users));
                assert(self.view_map() =~= after_voice_update(
                    old(self).view_map(),
                    guild_id,
                    user_id,
                    channel_id,
                ));
            },
        }
    }

    /// The voice channel `user_id` is in within `guild_id`, if known.
    pub fn channel_of(&self, guild_id: u64, user_id: u64) -> (r: Option<u64>)
        ensures
            r == channel_in(self.view_map(), guild_id, user_id),
    {
        match self.guilds.get(&guild_id) {
            None => None,
            Some(users) => match users.get(&user_id) {
                None => None,
                Some(c) => Some(*c),
            },
        }
    }
}

/// An active voice connection in one guild.
#[derive(Clone, Copy, Debug)]
pub struct VoiceSession {
    /// The voice channel the bot sits in.
    pub channel_id: u64,
    /// When voice last arrived, in nanoseconds of the sessions' clock.
    pub last_activity: u64,
}

/// Active voice connections, one per guild.
pub struct ActiveSessions {
    sessions: HashMap<u64, VoiceSession>,
    origin: std::time::Instant,
    /// The latest clock reading the sessions have used, in nanoseconds.
    latest: u64,
}

/// What the idle checker of a guild's session does next.
#[derive(Debug, PartialEq, Eq)]
pub enum IdleCheck {
    /// The session is gone: stop checking.
    Stop,
    /// The session has been idle for the whole timeout: leave the channel.
    Leave,
    /// Check again later.
    Wait,
}

/// Nanoseconds from `since` to `now`; a reading before `since` counts as none.
pub open spec fn elapsed_ns(since: u64, now: u64) -> int {
    if now >= since {
        now - since
    } else {
        0
    }
}

/// The idle checker's decision for `guild_id`, at clock reading `now`, with a
/// timeout of `timeout_secs` seconds.
pub open spec fn idle_decision(
    sessions: Map<u64, VoiceSession>,
    guild_id: u64,
    now: u64,
    timeout_secs: u64,
) -> IdleCheck {
    if !sessions.contains_key(guild_id) {
        IdleCheck::Stop
    } else if elapsed_ns(sessions[guild_id].last_activity, now) >= timeout_secs * 1000000000 {
        IdleCheck::Leave
    } else {
        IdleCheck::Wait
    }
}

impl ActiveSessions {
    /// The sessions, keyed by guild.
    pub closed spec fn sessions(&self) -> Map<u64, VoiceSession> {
        self.sessions@
    }

    /// The latest clock reading the sessions have used, in nanoseconds.
    pub closed spec fn latest(&self) -> u64 {
        self.latest
    }

    /// The start of the sessions' clock.
    pub closed spec fn origin(&self) -> std::time::Instant {
        self.origin
    }

    /// No active sessions; activity is timed on a clock started at `origin`
    /// (share the audio pipeline's, see `AudioPipeline::clock_origin`).
    pub fn new(origin: std::time::Instant) -> (r: Self)
        ensures
            r.sessions() == Map::<u64, VoiceSession>::empty(),
            r.latest() == 0,
            r.origin() == origin,
    {
        ActiveSessions { sessions: HashMap::new(), origin, latest: 0 }
    }

    /// Nanoseconds elapsed on the sessions' clock.
    pub fn now(&self) -> u64 {
        crate::audio::nanos_since(&self.origin)
    }

    /// A reading of the sessions' monotone clock, in nanoseconds: never earlier
    /// than any reading used before.
    fn read_clock(&self) -> (r: u64)
        ensures
            r >= self.latest(),
    {
        let t = self.now();
        if t > self.latest {
            t
        } else {
            self.latest
        }
    }

    /// Take `now` into account as a clock reading: the latest reading never goes back.
    fn advance_clock(&mut self, now: u64)
        ensures
            final(self).latest() == if now > old(self).latest() {
                now
            } else {
                old(self).latest()
            },
            final(self).sessions() == old(self).sessions(),
            final(self).origin() == old(self).origin(),
    {
        if now > self.latest {
            self.latest = now;
        }
    }

    /// The session in `guild_id`, if there is one.
    pub fn get(&self, guild_id: u64) -> (r: Option<VoiceSession>)
        ensures
            r == (if self.sessions().contains_key(guild_id) {
                Some(self.sessions()[guild_id])
            } else {
                None
            }),
    {
        match self.sessions.get(&guild_id) {
            Some(s) => Some(*s),
            None => None,
        }
    }

    /// Record that the bot joined `channel_id` in `guild_id` at clock reading `now`.
    pub fn start_session_at(&mut self, guild_id: u64, channel_id: u64, now: u64)
        ensures
            final(self).sessions() == old(self).sessions().insert(
                guild_id,
                VoiceSession { channel_id, last_activity: now },
            ),
            final(self).latest() == if now > old(self).latest() {
                now
            } else {
                old(self).latest()
            },
            final(self).origin() == old(self).origin(),
    {
        self.advance_clock(now);
        self.sessions.insert(guild_id, VoiceSession { channel_id, last_activity: now });
    }

    /// Record that the bot joined `channel_id` in `guild_id` just now: the
    /// session starts active as of a new reading of the monotone clock.
    pub fn start_session(&mut self, guild_id: u64, channel_id: u64)
        ensures
            exists|now: u64|
                now >= old(self).latest() && final(self).latest() == now && final(self).sessions()
                    == old(self).sessions().insert(
                    guild_id,
                    VoiceSession { channel_id, last_activity: now },
                ),
            final(self).origin() == old(self).origin(),
    {
        let now = self.read_clock();
        self.start_session_at(guild_id, channel_id, now);
    }

    /// Voice arrived in `guild_id` at clock reading `now`: its session, if any,
    /// becomes active as of `now`.
    pub fn touch_at(&mut self, guild_id: u64, now: u64)
        ensures
            final(self).sessions() == if old(self).sessions().contains_key(guild_id) {
                old(self).sessions().insert(
                    guild_id,
                    VoiceSession {
                        channel_id: old(self).sessions()[guild_id].channel_id,
                        last_activity: now,
                    },
                )
            } else {
                old(self).sessions()
            },
            final(self).latest() == if now > old(self).latest() {
                now
            } else {
                old(self).latest()
            },
            final(self).origin() == old(self).origin(),
    {
        self.advance_clock(now);
        match self.sessions.get(&guild_id) {
            Some(s) => {
                let channel_id = s.channel_id;
                self.sessions.insert(guild_id, VoiceSession { channel_id, last_activity: now });
            },
            None => {},
        }
    }

    /// The session of `guild_id` ended (the bot left the channel).
    pub fn end_session(&mut self, guild_id: u64)
        ensures
            final(self).sessions() == old(self).sessions().remove(guild_id),
            final(self).latest() == old(self).latest(),
            final(self).origin() == old(self).origin(),
    {
        self.sessions.remove(&guild_id);
    }

    /// The idle checker's decision for `guild_id` at clock reading `now`.
    pub fn idle_check_at(&self, guild_id: u64, timeout_secs: u64, now: u64) -> (r: IdleCheck)
        ensures
            r == idle_decision(self.sessions(), guild_id, now, timeout_secs),
    {
        match self.sessions.get(&guild_id) {
            None => IdleCheck::Stop,
            Some(s) => {
                let elapsed: u64 = if now >= s.last_activity {
                    now - s.last_activity
                } else {
                    0
                };
                if (elapsed as u128) >= (timeout_secs as u128) * 1000000000 {
                    IdleCheck::Leave
                } else {
                    IdleCheck::Wait
                }
            },
        }
    }

    /// The idle checker's decision for `guild_id` now, at a reading of the
    /// monotone clock no earlier than any reading used before (so no earlier
    /// than any recorded activity).
    pub fn idle_check(&self, guild_id: u64, timeout_secs: u64) -> (r: IdleCheck)
        ensures
            exists|now: u64|
                now >= self.latest() && r == idle_decision(
                    self.sessions(),
                    guild_id,
                    now,
                    timeout_secs,
                ),
    {
        let now = self.read_clock();
        self.idle_check_at(guild_id, timeout_secs, now)
    }
}

/// The channel to join after a message: a human user (not a bot) mentioned the
/// bot in a guild while sitting in one of that guild's voice channels, and the
/// bot is not already in that channel. The result is `(guild, channel)`.
pub open spec fn join_decision(
    author_is_bot: bool,
    author_id: u64,
    guild_id: Option<u64>,
    bot_user_id: Option<u64>,
    mentions: Seq<u64>,
    states: Map<u64, Map<u64, u64>>,
    sessions: Map<u64, VoiceSession>,
) -> Option<(u64, u64)> {
    if author_is_bot {
        None
    } else {
        match (guild_id, bot_user_id) {
            (Some(g), Some(bot)) => if !mentions.contains(bot) {
                None
            } else {
                match channel_in(states, g, author_id) {
                    None => None,
                    Some(c) => if sessions.contains_key(g) && sessions[g].channel_id == c {
                        None
                    } else {
                        Some((g, c))
                    },
                }
            },
            _ => None,
        }
    }
}

/// Whether `ids` holds `id`.
fn contains_id(ids: &[u64], id: u64) -> (r: bool)
    ensures
        r == ids@.contains(id),
{
    let mut i: usize = 0;
    while i < ids.len()
        invariant
            i <= ids@.len(),
            forall|k: int| 0 <= k < i ==> ids@[k] != id,
        decreases ids.len() - i,
    {
        if ids[i] == id {
            assert(ids@[i as int] == id);
            return true;
        }
        i = i + 1;
    }
    false
}

/// Decide whether a message makes the bot join a voice channel, and which.
pub fn join_target(
    author_is_bot: bool,
    author_id: u64,
    guild_id: Option<u64>,
    bot_user_id: Option<u64>,
    mentions: &[u64],
    states: &VoiceStates,
    sessions: &ActiveSessions,
) -> (r: Option<(u64, u64)>)
    ensures
        r == join_decision(
            author_is_bot,
            author_id,
            guild_id,
            bot_user_id,
            mentions@,
            states.view_map(),
            sessions.sessions(),
        ),
        r matches Some((g, c)) ==> {
            &&& !author_is_bot
            &&& guild_id == Some(g)
            &&& bot_user_id matches Some(b) && mentions@.contains(b)
            &&& channel_in(states.view_map(), g, author_id) == Some(c)
            &&& !(sessions.sessions().contains_key(g) && sessions.sessions()[g].channel_id == c)
        },
        !author_is_bot && guild_id is Some && bot_user_id is Some && mentions@.contains(
            bot_user_id->0,
        ) && channel_in(states.view_map(), guild_id->0, author_id) is Some && !(
        sessions.sessions().contains_key(guild_id->0) && sessions.sessions()[guild_id->0].channel_id
            == channel_in(states.view_map(), guild_id->0, author_id)->0) ==> r == Some(
            (guild_id->0, channel_in(states.view_map(), guild_id->0, author_id)->0),
        ),
{
    if author_is_bot {
        return None;
    }
    let g = match guild_id {
        Some(g) => g,
        None => return None,
    };
    let bot = match bot_user_id {
        Some(b) => b,
        None => return None,
    };
    if !contains_id(mentions, bot) {
        return None;
    }
    let target = match states.channel_of(g, author_id) {
        Some(c) => c,
        None => return None,
    };
    match sessions.get(g) {
        Some(s) => if s.channel_id == target {
            return None;
        },
        None => {},
    }
    Some((g, target))
}

/// The gateway became ready as `bot_user_id`: remember it and announce it.
pub fn on_ready(bot_user_id: &mut Option<u64>, id: u64) -> (r: GatewayEvent)
    ensures
        *final(bot_user_id) == Some(id),
        r == (GatewayEvent::Ready { bot_user_id: id }),
{
    *bot_user_id = Some(id);
    GatewayEvent::Ready { bot_user_id: id }
}

/// The event announcing a finished utterance captured in `channel_id` of
/// `guild_id`; an utterance of an unknown user is attributed to user 0.
pub fn utterance_event(guild_id: u64, channel_id: u64, utterance: Utterance) -> (r: GatewayEvent)
    ensures
        r == (GatewayEvent::UtteranceReady {
            guild_id,
            channel_id,
            user_id: match utterance.user_id {
                Some(u) => u,
                None => 0,
            },
            utterance,
        }),
{
    let user_id = match utterance.user_id {
        Some(u) => u,
        None => 0,
    };
    GatewayEvent::UtteranceReady { guild_id, channel_id, user_id, utterance }
}

/// The buffers after the frames of one voice tick are pushed into `bufs` at
/// clock reading `now`, with the audio flushed on the way: for each frame in
/// order, its samples join the buffer of its SSRC, and a buffer that reaches
/// `MAX_SAMPLES` is flushed (the flushed SSRC and buffer are listed).
pub open spec fn tick_pushes(
    bufs: Map<u32, BufferState>,
    frames: Seq<(u32, Vec<i16>)>,
    now: u64,
) -> (Map<u32, BufferState>, Seq<(u32, BufferState)>)
    decreases frames.len(),
{
    if frames.len() == 0 {
        (bufs, seq![])
    } else {
        let (mid, flushed) = tick_pushes(bufs, frames.drop_last(), now);
        let ssrc = frames.last().0;
        let b = buffer_or_empty(mid, ssrc);
        let all = b.0 + frames.last().1@;
        if all.len() >= MAX_SAMPLES {
            (mid.insert(ssrc, (seq![], now, b.2)), flushed.push((ssrc, (all, now, b.2))))
        } else {
            (mid.insert(ssrc, (all, now, b.2)), flushed)
        }
    }
}

/// `e` announces an utterance captured in `channel_id` of `guild_id`, attributed
/// to its speaker (user 0 when unknown).
pub open spec fn announces(e: GatewayEvent, guild_id: u64, channel_id: u64) -> bool {
    e matches GatewayEvent::UtteranceReady { guild_id: g, channel_id: c, user_id, utterance }
        && g == guild_id && c == channel_id && user_id == match utterance.user_id {
        Some(u) => u,
        None => 0,
    }
}

/// The utterance an event carries.
pub open spec fn event_utterance(e: GatewayEvent) -> Utterance
    recommends
        e is UtteranceReady,
{
    match e {
        GatewayEvent::UtteranceReady { utterance, .. } => utterance,
        _ => arbitrary(),
    }
}

/// The outcome of one voice tick at clock reading `now`: the buffers go from
/// `before` to `after`, the sessions from `sessions_before` to `sessions_after`,
/// and `r` are the events announced.
pub open spec fn tick_outcome(
    before: Map<u32, BufferState>,
    after: Map<u32, BufferState>,
    thr: u64,
    sessions_before: Map<u64, VoiceSession>,
    sessions_after: Map<u64, VoiceSession>,
    guild_id: u64,
    channel_id: u64,
    frames: Seq<(u32, Vec<i16>)>,
    now: u64,
    r: Seq<GatewayEvent>,
) -> bool {
    let (mid, flushed) = tick_pushes(before, frames, now);
    &&& sessions_after == if frames.len() > 0 && sessions_before.contains_key(guild_id) {
        sessions_before.insert(
            guild_id,
            VoiceSession { channel_id: sessions_before[guild_id].channel_id, last_activity: now },
        )
    } else {
        sessions_before
    }
    &&& r.len() >= flushed.len()
    &&& forall|i: int| 0 <= i < r.len() ==> announces(#[trigger] r[i], guild_id, channel_id)
    &&& forall|i: int|
        0 <= i < flushed.len() ==> utterance_of(
            #[trigger] event_utterance(r[i]),
            flushed[i].0,
            flushed[i].1,
        )
    &&& drain_outcome(
        mid,
        after,
        thr,
        now,
        event_utterances(r.subrange(flushed.len() as int, r.len() as int)),
    )
}

/// The utterances that events carry.
pub open spec fn event_utterances(es: Seq<GatewayEvent>) -> Seq<Utterance> {
    es.map_values(|e: GatewayEvent| event_utterance(e))
}

/// Feed the decoded audio of one voice tick, as of clock reading `now`, and
/// announce the utterances it completes: first those flushed because a buffer
/// reached its cap, in frame order, then those ended by silence. Each frame
/// also marks the guild's session as active.
pub fn process_voice_tick_at(
    pipeline: &mut AudioPipeline,
    sessions: &mut ActiveSessions,
    guild_id: u64,
    channel_id: u64,
    frames: Vec<(u32, Vec<i16>)>,
    now: u64,
) -> (r: Vec<GatewayEvent>)
    requires
        old(pipeline).wf(),
        forall|i: int|
            0 <= i < frames@.len() ==> #[trigger] frames@[i].1@.len() + MAX_SAMPLES <= usize::MAX,
    ensures
        final(pipeline).wf(),
        final(pipeline).silence_threshold_ms() == old(pipeline).silence_threshold_ms(),
        tick_outcome(
            old(pipeline).buffers(),
            final(pipeline).buffers(),
            old(pipeline).silence_threshold_ms(),
            old(sessions).sessions(),
            final(sessions).sessions(),
            guild_id,
            channel_id,
            frames@,
            now,
            r@,
        ),
        final(pipeline).latest() == if now > old(pipeline).latest() {
            now
        } else {
            old(pipeline).latest()
        },
        final(sessions).latest() == if frames@.len() > 0 && now > old(sessions).latest() {
            now
        } else {
            old(sessions).latest()
        },
{
    let mut events: Vec<GatewayEvent> = Vec::new();
    let ghost start = pipeline.buffers();
    let mut i: usize = 0;
    while i < frames.len()
        invariant
            pipeline.wf(),
            pipeline.silence_threshold_ms() == old(pipeline).silence_threshold_ms(),
            start == old(pipeline).buffers(),
            pipeline.latest() == if i > 0 && now > old(pipeline).latest() {
                now
            } else {
                old(pipeline).latest()
            },
            sessions.latest() == if i > 0 && now > old(sessions).latest() {
                now
            } else {
                old(sessions).latest()
            },
            i <= frames@.len(),
            forall|j: int|
                0 <= j < frames@.len() ==> #[trigger] frames@[j].1@.len() + MAX_SAMPLES
                    <= usize::MAX,
            (pipeline.buffers(), tick_pushes(start, frames@.take(i as int), now).1)
                == tick_pushes(start, frames@.take(i as int), now),
            events@.len() == tick_pushes(start, frames@.take(i as int), now).1.len(),
            forall|j: int|
                0 <= j < events@.len() ==> announces(#[trigger] events@[j], guild_id, channel_id),
            forall|j: int| 0 <= j < events@.len() ==> utterance_of(
                #[trigger] event_utterance(events@[j]),
                tick_pushes(start, frames@.take(i as int), now).1[j].0,
                tick_pushes(start, frames@.take(i as int), now).1[j].1,
            ),
            sessions.sessions() == if i > 0 && old(sessions).sessions().contains_key(guild_id) {
                old(sessions).sessions().insert(
                    guild_id,
                    VoiceSession {
                        channel_id: old(sessions).sessions()[guild_id].channel_id,
                        last_activity: now,
                    },
                )
            } else {
                old(sessions).sessions()
            },
        decreases frames.len() - i,
    {
        let ghost prefix = frames@.take(i as int);
        let ghost next = frames@.take(i + 1);
        assert(next.drop_last() =~= prefix);
        assert(next.last() == frames@[i as int]);
        sessions.touch_at(guild_id, now);
        let ghost events_before = events@;
        match pipeline.push_audio_at(frames[i].0, frames[i].1.as_slice(), now) {
            Some(u) => {
                events.push(utterance_event(guild_id, channel_id, u));
                assert(forall|j: int|
                    0 <= j < events_before.len() ==> events@[j] == events_before[j]);
            },
            None => {},
        }
        i = i + 1;
    }
    assert(frames@.take(frames@.len() as int) =~= frames@);
    let ghost mid = pipeline.buffers();
    let ghost pushed = events@;
    let drained = pipeline.drain_silent_at(now);
    let ghost drained_view = drained@;
    for u in it: drained
        invariant
            it.seq() == drained_view,
            events@.len() == pushed.len() + it.index(),
            forall|j: int| 0 <= j < pushed.len() ==> events@[j] == pushed[j],
            forall|j: int|
                0 <= j < events@.len() ==> announces(#[trigger] events@[j], guild_id, channel_id),
            forall|j: int|
                pushed.len() <= j < events@.len() ==> #[trigger] event_utterance(events@[j])
                    == drained_view[j - pushed.len()],
    {
        let ghost events_before = events@;
        events.push(utterance_event(guild_id, channel_id, u));
        assert(forall|j: int| 0 <= j < events_before.len() ==> events@[j] == events_before[j]);
    }
    proof {
        let flushed = tick_pushes(start, frames@, now).1;
        assert(mid == tick_pushes(start, frames@, now).0);
        assert(pushed.len() == flushed.len());
        assert forall|i: int| 0 <= i < flushed.len() implies utterance_of(
            #[trigger] event_utterance(events@[i]),
            flushed[i].0,
            flushed[i].1,
        ) by {
            assert(events@[i] == pushed[i]);
        }
        assert(event_utterances(events@.subrange(flushed.len() as int, events@.len() as int))
            =~= drained_view);
    }
    events
}

/// Feed the decoded audio of one voice tick and announce the utterances it
/// completes, as `process_voice_tick_at` does for the current clock reading.
pub fn process_voice_tick(
    pipeline: &mut AudioPipeline,
    sessions: &mut ActiveSessions,
    guild_id: u64,
    channel_id: u64,
    frames: Vec<(u32, Vec<i16>)>,
) -> (r: Vec<GatewayEvent>)
    requires
        old(pipeline).wf(),
        forall|i: int|
            0 <= i < frames@.len() ==> #[trigger] frames@[i].1@.len() + MAX_SAMPLES <= usize::MAX,
    ensures
        final(pipeline).wf(),
        final(pipeline).silence_threshold_ms() == old(pipeline).silence_threshold_ms(),
        exists|now: u64|
            now >= old(pipeline).latest() && final(pipeline).latest() == now && (frames@.len() > 0
                ==> final(sessions).latest() >= now) && tick_outcome(
                old(pipeline).buffers(),
                final(pipeline).buffers(),
                old(pipeline).silence_threshold_ms(),
                old(sessions).sessions(),
                final(sessions).sessions(),
                guild_id,
                channel_id,
                frames@,
                now,
                r@,
            ),
{
    let now = pipeline.read_clock();
    process_voice_tick_at(pipeline, sessions, guild_id, channel_id, frames, now)
}

/// After a voice state update the cache gives the user's new channel (none
/// after leaving voice), and every other user's channel is unchanged.
pub proof fn lemma_voice_state_read_after_update(
    m: Map<u64, Map<u64, u64>>,
    guild_id: u64,
    user_id: u64,
    channel_id: Option<u64>,
    other_guild: u64,
    other_user: u64,
)
    requires
        other_guild != guild_id || other_user != user_id,
    ensures
        channel_in(after_voice_update(m, Some(guild_id), user_id, channel_id), guild_id, user_id)
            == channel_id,
        channel_in(
            after_voice_update(m, Some(guild_id), user_id, channel_id),
            other_guild,
            other_user,
        ) == channel_in(m, other_guild, other_user),
{
}

/// A message from a bot, or one outside any guild, never makes the bot join.
pub proof fn lemma_no_join_for_bots_or_direct_messages(
    author_is_bot: bool,
    author_id: u64,
    guild_id: Option<u64>,
    bot_user_id: Option<u64>,
    mentions: Seq<u64>,
    states: Map<u64, Map<u64, u64>>,
    sessions: Map<u64, VoiceSession>,
)
    requires
        author_is_bot || guild_id is None,
    ensures
        join_decision(author_is_bot, author_id, guild_id, bot_user_id, mentions, states, sessions)
            is None,
{
}

/// The bot never joins the channel it already sits in, and any channel it
/// joins is the author's current voice channel in the message's guild.
pub proof fn lemma_join_targets_authors_channel(
    author_is_bot: bool,
    author_id: u64,
    guild_id: Option<u64>,
    bot_user_id: Option<u64>,
    mentions: Seq<u64>,
    states: Map<u64, Map<u64, u64>>,
    sessions: Map<u64, VoiceSession>,
)
    ensures
        join_decision(author_is_bot, author_id, guild_id, bot_user_id, mentions, states, sessions)
            matches Some((g, c)) ==> {
            &&& guild_id == Some(g)
            &&& channel_in(states, g, author_id) == Some(c)
            &&& !(sessions.contains_key(g) && sessions[g].channel_id == c)
        },
{
}

/// A session just started, or just active, is not left by a positive timeout;
/// an ended session stops its checker.
pub proof fn lemma_fresh_sessions_are_kept(
    sessions: Map<u64, VoiceSession>,
    guild_id: u64,
    channel_id: u64,
    now: u64,
    timeout_secs: u64,
)
    requires
        timeout_secs > 0,
    ensures
        idle_decision(
            sessions.insert(guild_id, VoiceSession { channel_id, last_activity: now }),
            guild_id,
            now,
            timeout_secs,
        ) == IdleCheck::Wait,
        idle_decision(sessions.remove(guild_id), guild_id, now, timeout_secs) == IdleCheck::Stop,
{
}

/// A session idle for the whole timeout is left.
pub proof fn lemma_idle_sessions_are_left(
    sessions: Map<u64, VoiceSession>,
    guild_id: u64,
    now: u64,
    timeout_secs: u64,
)
    requires
        sessions.contains_key(guild_id),
        now >= sessions[guild_id].last_activity + timeout_secs * 1000000000,
    ensures
        idle_decision(sessions, guild_id, now, timeout_secs) == IdleCheck::Leave,
{
}

/// A tick's pushes leave the buffer of an SSRC that none of its frames carries.
proof fn lemma_pushes_leave_other_buffers(
    bufs: Map<u32, BufferState>,
    frames: Seq<(u32, Vec<i16>)>,
    now: u64,
    k: u32,
)
    requires
        forall|i: int| 0 <= i < frames.len() ==> #[trigger] frames[i].0 != k,
    ensures
        tick_pushes(bufs, frames, now).0.contains_key(k) == bufs.contains_key(k),
        bufs.contains_key(k) ==> tick_pushes(bufs, frames, now).0[k] == bufs[k],
    decreases frames.len(),
{
    if frames.len() > 0 {
        let init = frames.drop_last();
        assert forall|i: int| 0 <= i < init.len() implies #[trigger] init[i].0 != k by {
            assert(init[i] == frames[i]);
        }
        lemma_pushes_leave_other_buffers(bufs, init, now, k);
        assert(frames.last() == frames[frames.len() - 1]);
    }
}

/// A tick at a reading at least the silence threshold after an SSRC's audio
/// last arrived announces that audio, whole, unless the tick brings new audio
/// for it; and a tick with audio marks the guild's session active as of the
/// tick's reading.
pub proof fn lemma_tick_announces_quiet_audio(
    before: Map<u32, BufferState>,
    after: Map<u32, BufferState>,
    thr: u64,
    sessions_before: Map<u64, VoiceSession>,
    sessions_after: Map<u64, VoiceSession>,
    guild_id: u64,
    channel_id: u64,
    frames: Seq<(u32, Vec<i16>)>,
    now: u64,
    r: Seq<GatewayEvent>,
    k: u32,
)
    requires
        tick_outcome(
            before,
            after,
            thr,
            sessions_before,
            sessions_after,
            guild_id,
            channel_id,
            frames,
            now,
            r,
        ),
    ensures
        before.contains_key(k) && before[k].0.len() > 0 && now >= before[k].1 + thr * 1000000 && (
        forall|i: int| 0 <= i < frames.len() ==> #[trigger] frames[i].0 != k) ==> exists|i: int|
            0 <= i < r.len() && announces(r[i], guild_id, channel_id) && event_utterance(r[i]).ssrc
                == k && event_utterance(r[i]).pcm@ == before[k].0,
        frames.len() > 0 && sessions_before.contains_key(guild_id) ==> sessions_after[guild_id]
            == (VoiceSession {
            channel_id: sessions_before[guild_id].channel_id,
            last_activity: now,
        }),
{
    let (mid, flushed) = tick_pushes(before, frames, now);
    if before.contains_key(k) && before[k].0.len() > 0 && now >= before[k].1 + thr * 1000000 && (
    forall|i: int| 0 <= i < frames.len() ==> #[trigger] frames[i].0 != k) {
        lemma_pushes_leave_other_buffers(before, frames, now, k);
        let drained = event_utterances(r.subrange(flushed.len() as int, r.len() as int));
        crate::audio::lemma_quiet_audio_is_handed_out(mid, after, thr, now, drained, k);
        let j = choose|j: int|
            0 <= j < drained.len() && drained[j].ssrc == k && drained[j].pcm@ == mid[k].0
                && drained[j].user_id == mid[k].2;
        let i = flushed.len() + j;
        assert(drained[j] == event_utterance(r[i]));
        assert(announces(r[i], guild_id, channel_id));
    }
}

/// A session started (or last active) at reading `t` is left by a check at any
/// reading at least the timeout later, and kept by a check before that.
pub proof fn lemma_session_left_exactly_after_timeout(
    sessions: Map<u64, VoiceSession>,
    guild_id: u64,
    channel_id: u64,
    t: u64,
    now: u64,
    timeout_secs: u64,
)
    requires
        now >= t,
    ensures
        idle_decision(
            sessions.insert(guild_id, VoiceSession { channel_id, last_activity: t }),
            guild_id,
            now,
            timeout_secs,
        ) == if now >= t + timeout_secs * 1000000000 {
            IdleCheck::Leave
        } else {
            IdleCheck::Wait
        },
{
}

/// A human user who mentions the bot anywhere in a guild message, while sitting
/// in a voice channel of that guild the bot is not in, makes the bot join it.
pub proof fn lemma_mention_joins_authors_channel(
    author_id: u64,
    g: u64,
    bot: u64,
    mentions: Seq<u64>,
    states: Map<u64, Map<u64, u64>>,
    sessions: Map<u64, VoiceSession>,
    c: u64,
)
    requires
        mentions.contains(bot),
        states.contains_key(g) && states[g].contains_key(author_id) && states[g][author_id] == c,
        !(sessions.contains_key(g) && sessions[g].channel_id == c),
    ensures
        join_decision(false, author_id, Some(g), Some(bot), mentions, states, sessions) == Some(
            (g, c),
        ),
{
}

/// Only a message that mentions the bot makes it join.
pub proof fn lemma_join_needs_mention(
    author_is_bot: bool,
    author_id: u64,
    guild_id: Option<u64>,
    bot_user_id: Option<u64>,
    mentions: Seq<u64>,
    states: Map<u64, Map<u64, u64>>,
    sessions: Map<u64, VoiceSession>,
)
    requires
        join_decision(author_is_bot, author_id, guild_id, bot_user_id, mentions, states, sessions)
            is Some,
    ensures
        !author_is_bot,
        bot_user_id matches Some(b) && mentions.contains(b),
{
}

} // verus!
