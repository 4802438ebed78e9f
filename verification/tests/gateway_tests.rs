use ironclaw_voice::audio::{AudioPipeline, Utterance, MAX_SAMPLES, SAMPLE_RATE};
use ironclaw_voice::gateway::{
    join_target, on_ready, process_voice_tick_at, utterance_event, ActiveSessions, GatewayEvent,
    IdleCheck, VoiceStates,
};

const SEC: u64 = 1_000_000_000;

fn sessions() -> ActiveSessions {
    ActiveSessions::new(std::time::Instant::now())
}

#[test]
fn voice_states_track_joins_moves_and_leaves() {
    let mut states = VoiceStates::new();
    assert_eq!(states.channel_of(1, 10), None);
    states.update(Some(1), 10, Some(100));
    states.update(Some(1), 11, Some(101));
    states.update(Some(2), 10, Some(200));
    assert_eq!(states.channel_of(1, 10), Some(100));
    assert_eq!(states.channel_of(1, 11), Some(101));
    assert_eq!(states.channel_of(2, 10), Some(200));
    // a move
    states.update(Some(1), 10, Some(102));
    assert_eq!(states.channel_of(1, 10), Some(102));
    // a leave
    states.update(Some(1), 10, None);
    assert_eq!(states.channel_of(1, 10), None);
    assert_eq!(states.channel_of(1, 11), Some(101));
    // outside any guild: ignored
    states.update(None, 11, Some(5));
    assert_eq!(states.channel_of(1, 11), Some(101));
}

#[test]
fn mention_joins_the_authors_channel() {
    let mut states = VoiceStates::new();
    states.update(Some(1), 42, Some(300));
    let calls = sessions();
    let bot = Some(7);
    assert_eq!(join_target(false, 42, Some(1), bot, &[5, 7], &states, &calls), Some((1, 300)));
    // not mentioned
    assert_eq!(join_target(false, 42, Some(1), bot, &[5], &states, &calls), None);
    // a bot author
    assert_eq!(join_target(true, 42, Some(1), bot, &[7], &states, &calls), None);
    // a direct message
    assert_eq!(join_target(false, 42, None, bot, &[7], &states, &calls), None);
    // the bot's own id not known yet
    assert_eq!(join_target(false, 42, Some(1), None, &[7], &states, &calls), None);
    // the author is not in voice
    assert_eq!(join_target(false, 43, Some(1), bot, &[7], &states, &calls), None);
}

#[test]
fn no_join_when_already_there() {
    let mut states = VoiceStates::new();
    states.update(Some(1), 42, Some(300));
    let mut calls = sessions();
    calls.start_session_at(1, 300, 0);
    assert_eq!(join_target(false, 42, Some(1), Some(7), &[7], &states, &calls), None);
    // in another channel of the guild: move
    calls.start_session_at(1, 301, 0);
    assert_eq!(join_target(false, 42, Some(1), Some(7), &[7], &states, &calls), Some((1, 300)));
}

#[test]
fn idle_sessions_are_left() {
    let mut calls = sessions();
    assert_eq!(calls.idle_check_at(1, 300, 0), IdleCheck::Stop);
    calls.start_session_at(1, 300, 10 * SEC);
    assert_eq!(calls.idle_check_at(1, 300, 10 * SEC), IdleCheck::Wait);
    assert_eq!(calls.idle_check_at(1, 300, 309 * SEC), IdleCheck::Wait);
    assert_eq!(calls.idle_check_at(1, 300, 310 * SEC), IdleCheck::Leave);
    calls.touch_at(1, 200 * SEC);
    assert_eq!(calls.idle_check_at(1, 300, 310 * SEC), IdleCheck::Wait);
    assert_eq!(calls.get(1).unwrap().channel_id, 300);
    calls.end_session(1);
    assert_eq!(calls.idle_check_at(1, 300, 310 * SEC), IdleCheck::Stop);
    // touching a guild without a session does nothing
    calls.touch_at(2, 5);
    assert!(calls.get(2).is_none());
}

#[test]
fn clock_based_checks() {
    let mut calls = sessions();
    calls.start_session(4, 9);
    assert_eq!(calls.idle_check(4, 0), IdleCheck::Leave);
    assert_eq!(calls.idle_check(4, 3600), IdleCheck::Wait);
    assert_eq!(calls.idle_check(5, 1), IdleCheck::Stop);
}

#[test]
fn ready_remembers_the_bot() {
    let mut bot = None;
    match on_ready(&mut bot, 99) {
        GatewayEvent::Ready { bot_user_id } => assert_eq!(bot_user_id, 99),
        _ => panic!("expected ready"),
    }
    assert_eq!(bot, Some(99));
}

#[test]
fn unknown_speakers_are_user_zero() {
    let u = Utterance { ssrc: 3, user_id: None, pcm: vec![1], sample_rate: SAMPLE_RATE };
    match utterance_event(1, 2, u) {
        GatewayEvent::UtteranceReady { guild_id, channel_id, user_id, utterance } => {
            assert_eq!((guild_id, channel_id, user_id), (1, 2, 0));
            assert_eq!(utterance.ssrc, 3);
        }
        _ => panic!("expected an utterance"),
    }
    let u = Utterance { ssrc: 3, user_id: Some(55), pcm: vec![1], sample_rate: SAMPLE_RATE };
    match utterance_event(1, 2, u) {
        GatewayEvent::UtteranceReady { user_id, .. } => assert_eq!(user_id, 55),
        _ => panic!("expected an utterance"),
    }
}

#[test]
fn voice_tick_feeds_pipeline_and_announces() {
    let mut pipeline = AudioPipeline::new(50);
    let mut calls = sessions();
    calls.start_session_at(1, 300, 0);
    pipeline.map_ssrc_to_user_at(8, 4242, 0);

    // first tick: audio from two speakers, nothing complete
    let events = process_voice_tick_at(
        &mut pipeline,
        &mut calls,
        1,
        300,
        vec![(8, vec![1, 2]), (9, vec![3])],
        5 * SEC,
    );
    assert!(events.is_empty());
    assert_eq!(calls.get(1).unwrap().last_activity, 5 * SEC);

    // a quiet tick later: both utterances end
    let events = process_voice_tick_at(&mut pipeline, &mut calls, 1, 300, vec![], 6 * SEC);
    assert_eq!(events.len(), 2);
    let mut seen: Vec<(u64, u32, Vec<i16>)> = events
        .into_iter()
        .map(|e| match e {
            GatewayEvent::UtteranceReady { guild_id, channel_id, user_id, utterance } => {
                assert_eq!((guild_id, channel_id), (1, 300));
                (user_id, utterance.ssrc, utterance.pcm)
            }
            _ => panic!("expected utterances"),
        })
        .collect();
    seen.sort();
    assert_eq!(seen, vec![(0, 9, vec![3]), (4242, 8, vec![1, 2])]);
    // a tick without audio does not count as activity
    assert_eq!(calls.get(1).unwrap().last_activity, 5 * SEC);
}

#[test]
fn voice_tick_flushes_full_buffers_first() {
    let mut pipeline = AudioPipeline::new(50);
    let mut calls = sessions();
    pipeline.push_audio_at(1, &[0], 0);
    let big = vec![7i16; MAX_SAMPLES];
    let events = process_voice_tick_at(
        &mut pipeline,
        &mut calls,
        5,
        6,
        vec![(2, big)],
        SEC,
    );
    // the full buffer of SSRC 2, then the silent one of SSRC 1
    assert_eq!(events.len(), 2);
    match &events[0] {
        GatewayEvent::UtteranceReady { utterance, .. } => {
            assert_eq!(utterance.ssrc, 2);
            assert_eq!(utterance.pcm.len(), MAX_SAMPLES);
        }
        _ => panic!("expected an utterance"),
    }
    match &events[1] {
        GatewayEvent::UtteranceReady { utterance, .. } => assert_eq!(utterance.ssrc, 1),
        _ => panic!("expected an utterance"),
    }
}
