use ironclaw_voice::stt::{
    encode_wav, http_failure, prepare_transcription, transcription_refused, unparsable_reply,
    SttError,
};

#[test]
fn wav_header_riff_magic() {
    let pcm = vec![0i16; 100];
    let wav = encode_wav(&pcm, 16000);

    assert_eq!(&wav[0..4], b"RIFF");
    assert_eq!(&wav[8..12], b"WAVE");
    assert_eq!(&wav[12..16], b"fmt ");
    assert_eq!(&wav[36..40], b"data");
}

#[test]
fn wav_header_sizes() {
    let pcm = vec![0i16; 100];
    let wav = encode_wav(&pcm, 16000);

    let data_size = 100 * 2; // 100 samples * 2 bytes each
    let file_size = 36 + data_size;

    // RIFF chunk size at offset 4
    let riff_size = u32::from_le_bytes([wav[4], wav[5], wav[6], wav[7]]);
    assert_eq!(riff_size, file_size as u32);

    // data sub-chunk size at offset 40
    let data_chunk_size = u32::from_le_bytes([wav[40], wav[41], wav[42], wav[43]]);
    assert_eq!(data_chunk_size, data_size as u32);

    // Total file length
    assert_eq!(wav.len(), 44 + data_size);
}

#[test]
fn wav_fmt_chunk_values() {
    let wav = encode_wav(&[1i16, -1], 48000);

    // fmt sub-chunk size = 16
    let fmt_size = u32::from_le_bytes([wav[16], wav[17], wav[18], wav[19]]);
    assert_eq!(fmt_size, 16);

    // audio format = 1 (PCM)
    let audio_format = u16::from_le_bytes([wav[20], wav[21]]);
    assert_eq!(audio_format, 1);

    // channels = 1
    let channels = u16::from_le_bytes([wav[22], wav[23]]);
    assert_eq!(channels, 1);

    // sample rate
    let sr = u32::from_le_bytes([wav[24], wav[25], wav[26], wav[27]]);
    assert_eq!(sr, 48000);

    // bits per sample = 16
    let bps = u16::from_le_bytes([wav[34], wav[35]]);
    assert_eq!(bps, 16);
}

#[test]
fn wav_empty_pcm() {
    let wav = encode_wav(&[], 16000);
    assert_eq!(wav.len(), 44);
    let data_size = u32::from_le_bytes([wav[40], wav[41], wav[42], wav[43]]);
    assert_eq!(data_size, 0);
}

#[test]
fn stt_error_display() {
    let err = SttError::HttpError {
        reason: "timeout".to_string(),
    };
    assert_eq!(err.to_string(), "HTTP request failed: timeout");

    let err = SttError::TranscriptionFailed {
        reason: "bad model".to_string(),
    };
    assert_eq!(err.to_string(), "Transcription failed: bad model");

    let err = SttError::InvalidAudio {
        reason: "empty".to_string(),
    };
    assert_eq!(err.to_string(), "Invalid audio: empty");
}

#[test]
fn wav_samples_little_endian() {
    let wav = encode_wav(&[1i16, -1, 0x1234, i16::MIN], 8000);
    assert_eq!(&wav[44..], &[0x01, 0x00, 0xff, 0xff, 0x34, 0x12, 0x00, 0x80]);
    // byte rate and block align
    assert_eq!(u32::from_le_bytes([wav[28], wav[29], wav[30], wav[31]]), 16000);
    assert_eq!(u16::from_le_bytes([wav[32], wav[33]]), 2);
}

#[test]
fn empty_audio_is_refused() {
    match prepare_transcription(&[], 48000) {
        Err(e) => assert_eq!(e.to_string(), "Invalid audio: PCM data is empty"),
        Ok(_) => panic!("empty audio must be refused"),
    }
    let wav = prepare_transcription(&[7, 8], 48000).ok().unwrap();
    assert_eq!(wav, encode_wav(&[7, 8], 48000));
}

#[test]
fn transcription_error_texts() {
    assert_eq!(http_failure("timed out").to_string(), "HTTP request failed: timed out");
    assert_eq!(
        transcription_refused("401 Unauthorized", Some("bad key".to_string())).to_string(),
        "Transcription failed: API returned 401 Unauthorized: bad key"
    );
    assert_eq!(
        transcription_refused("500 Internal Server Error", None).to_string(),
        "Transcription failed: API returned 500 Internal Server Error: unable to read body"
    );
    assert_eq!(
        unparsable_reply("missing field `text`").to_string(),
        "Transcription failed: failed to parse response: missing field `text`"
    );
}

#[test]
fn empty_audio_is_refused_at_any_rate() {
    assert!(matches!(
        prepare_transcription(&[], u32::MAX),
        Err(SttError::InvalidAudio { .. })
    ));
}
