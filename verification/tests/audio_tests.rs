use ironclaw_voice::audio::{AudioPipeline, MAX_BUFFER_DURATION_SECS, MAX_SAMPLES, SAMPLE_RATE};

const MS: u64 = 1_000_000;

#[test]
fn silence_detection_flushes_buffer() {
    let mut pipeline = AudioPipeline::new(50);
    let samples = vec![100i16; 4800]; // 100 ms at 48 kHz

    assert!(pipeline.push_audio_at(1, &samples, 0).is_none());
    assert_eq!(pipeline.active_count(), 1);

    // No silence yet
    let utterances = pipeline.drain_silent_at(0);
    assert!(utterances.is_empty());

    // 60 ms of silence
    let utterances = pipeline.drain_silent_at(60 * MS);
    assert_eq!(utterances.len(), 1);
    assert_eq!(utterances[0].ssrc, 1);
    assert_eq!(utterances[0].pcm.len(), 4800);
    assert_eq!(utterances[0].sample_rate, SAMPLE_RATE);
}

#[test]
fn max_buffer_cap_triggers_flush() {
    let mut pipeline = AudioPipeline::new(800);
    let max_samples = SAMPLE_RATE as usize * MAX_BUFFER_DURATION_SECS as usize;

    // Push just under the cap
    let under_cap = vec![42i16; max_samples - 100];
    assert!(pipeline.push_audio(2, &under_cap).is_none());

    // Push over the cap
    let over = vec![42i16; 200];
    let utterance = pipeline.push_audio(2, &over);
    assert!(utterance.is_some());
    let u = utterance.unwrap();
    assert_eq!(u.ssrc, 2);
    assert_eq!(u.pcm.len(), max_samples + 100); // slightly over, that's fine
}

#[test]
fn ssrc_user_mapping() {
    let mut pipeline = AudioPipeline::new(50);
    pipeline.map_ssrc_to_user_at(10, 12345, 0);
    pipeline.push_audio_at(10, &[1, 2, 3], 0);

    let utterances = pipeline.drain_silent_at(60 * MS);
    assert_eq!(utterances.len(), 1);
    assert_eq!(utterances[0].user_id, Some(12345));
}

#[test]
fn remove_ssrc_flushes_remaining() {
    let mut pipeline = AudioPipeline::new(5000);
    pipeline.push_audio(5, &[10, 20, 30]);

    let utterance = pipeline.remove_ssrc(5);
    assert!(utterance.is_some());
    assert_eq!(utterance.unwrap().pcm, vec![10, 20, 30]);
    assert_eq!(pipeline.active_count(), 0);
}

#[test]
fn remove_empty_ssrc_returns_none() {
    let mut pipeline = AudioPipeline::new(800);
    assert!(pipeline.remove_ssrc(99).is_none());
}

#[test]
fn empty_buffer_not_flushed() {
    let mut pipeline = AudioPipeline::new(10);
    // Insert an SSRC but with no audio
    pipeline.map_ssrc_to_user_at(7, 111, 0);

    let utterances = pipeline.drain_silent_at(20 * MS);
    assert!(utterances.is_empty());
}

#[test]
fn max_samples_is_thirty_seconds_of_audio() {
    assert_eq!(MAX_SAMPLES, 1_440_000);
    assert_eq!(MAX_SAMPLES, SAMPLE_RATE as usize * MAX_BUFFER_DURATION_SECS as usize);
}

#[test]
fn recent_voice_is_not_flushed() {
    let mut pipeline = AudioPipeline::new(50);
    pipeline.push_audio_at(3, &[5, 6], 100 * MS);
    // 49 ms later: still speaking
    assert!(pipeline.drain_silent_at(149 * MS).is_empty());
    // exactly the threshold: flushed
    let u = pipeline.drain_silent_at(150 * MS);
    assert_eq!(u.len(), 1);
    assert_eq!(u[0].pcm, vec![5, 6]);
    // the buffer stays, empty, and is not flushed again
    assert_eq!(pipeline.active_count(), 1);
    assert!(pipeline.drain_silent_at(500 * MS).is_empty());
}

#[test]
fn pushes_accumulate_in_order() {
    let mut pipeline = AudioPipeline::new(10);
    pipeline.push_audio_at(4, &[1, 2], 0);
    pipeline.push_audio_at(4, &[3], 5 * MS);
    pipeline.push_audio_at(9, &[7], 5 * MS);
    let mut u = pipeline.drain_silent_at(15 * MS);
    u.sort_by_key(|x| x.ssrc);
    assert_eq!(u.len(), 2);
    assert_eq!(u[0].ssrc, 4);
    assert_eq!(u[0].pcm, vec![1, 2, 3]);
    assert_eq!(u[0].user_id, None);
    assert_eq!(u[1].ssrc, 9);
    assert_eq!(u[1].pcm, vec![7]);
}

#[test]
fn mapping_keeps_buffered_audio() {
    let mut pipeline = AudioPipeline::new(10);
    pipeline.push_audio_at(8, &[4, 4], 0);
    pipeline.map_ssrc_to_user_at(8, 77, 1 * MS);
    let u = pipeline.remove_ssrc(8).unwrap();
    assert_eq!(u.pcm, vec![4, 4]);
    assert_eq!(u.user_id, Some(77));
}

#[test]
fn draining_twice_at_once_yields_nothing_more() {
    let mut pipeline = AudioPipeline::new(20);
    pipeline.push_audio_at(1, &[1], 0);
    pipeline.push_audio_at(2, &[2], 15 * MS);
    let first = pipeline.drain_silent_at(30 * MS);
    assert_eq!(first.len(), 1);
    assert_eq!(first[0].ssrc, 1);
    assert!(pipeline.drain_silent_at(30 * MS).is_empty());
    assert_eq!(pipeline.active_count(), 2);
}

#[test]
fn audio_is_handed_out_once_in_order() {
    let mut pipeline = AudioPipeline::new(10);
    let mut out: Vec<i16> = Vec::new();
    let chunk: Vec<i16> = (0..1000).map(|x| x as i16).collect();
    let mut fed: Vec<i16> = Vec::new();
    let mut t = 0u64;
    for _ in 0..1500 {
        fed.extend_from_slice(&chunk);
        if let Some(u) = pipeline.push_audio_at(6, &chunk, t) {
            out.extend_from_slice(&u.pcm);
        }
        t += MS;
    }
    for u in pipeline.drain_silent_at(t + 5 * MS) {
        out.extend_from_slice(&u.pcm);
    }
    pipeline.push_audio_at(6, &[9, 9], t + 6 * MS);
    fed.extend_from_slice(&[9, 9]);
    if let Some(u) = pipeline.remove_ssrc(6) {
        out.extend_from_slice(&u.pcm);
    }
    assert_eq!(out, fed);
}

#[test]
fn active_count_follows_tracking() {
    let mut pipeline = AudioPipeline::new(10);
    assert_eq!(pipeline.active_count(), 0);
    pipeline.push_audio_at(1, &[1], 0);
    pipeline.map_ssrc_to_user_at(2, 20, 0);
    pipeline.push_audio_at(1, &[2], 0);
    assert_eq!(pipeline.active_count(), 2);
    pipeline.drain_silent_at(100 * MS);
    assert_eq!(pipeline.active_count(), 2);
    pipeline.remove_ssrc(1);
    pipeline.remove_ssrc(3);
    assert_eq!(pipeline.active_count(), 1);
}
