use ironclaw_voice::tts::{http_failure, split_sentences, synthesis_refused, TtsError};

#[test]
fn tts_error_display_http() {
    let err = TtsError::HttpError {
        reason: "connection refused".into(),
    };
    assert_eq!(err.to_string(), "TTS HTTP error: connection refused");
}

#[test]
fn tts_error_display_synthesis() {
    let err = TtsError::SynthesisFailed {
        reason: "rate limited".into(),
    };
    assert_eq!(err.to_string(), "TTS synthesis failed: rate limited");
}

#[test]
fn split_sentences_empty() {
    assert!(split_sentences("").is_empty());
    assert!(split_sentences("   ").is_empty());
}

#[test]
fn split_sentences_single() {
    let result = split_sentences("Hello world.");
    assert_eq!(result, vec!["Hello world."]);
}

#[test]
fn split_sentences_multiple() {
    let result = split_sentences("First. Second! Third?");
    assert_eq!(result, vec!["First.", "Second!", "Third?"]);
}

#[test]
fn split_sentences_no_trailing_punctuation() {
    let result = split_sentences("Hello. World");
    assert_eq!(result, vec!["Hello.", "World"]);
}

#[test]
fn split_sentences_trailing_space() {
    let result = split_sentences("Done. ");
    assert_eq!(result, vec!["Done."]);
}

#[test]
fn split_sentences_multiple_spaces() {
    let result = split_sentences("One.  Two.  Three.");
    assert_eq!(result, vec!["One.", "Two.", "Three."]);
}

#[test]
fn split_sentences_keeps_inner_punctuation() {
    // a dot not followed by whitespace does not end a sentence
    assert_eq!(split_sentences("v1.2 is out. Yes"), vec!["v1.2 is out.", "Yes"]);
    assert_eq!(split_sentences("Wait...  what?!"), vec!["Wait...", "what?!"]);
    assert_eq!(split_sentences(" . x"), vec![".", "x"]);
}

#[test]
fn split_sentences_unicode_whitespace() {
    assert_eq!(split_sentences("Hi.\u{3000}Bye."), vec!["Hi.", "Bye."]);
    assert_eq!(split_sentences("Ja.\nNein!\tVielleicht?"), vec!["Ja.", "Nein!", "Vielleicht?"]);
}

#[test]
fn synthesis_error_texts() {
    assert_eq!(http_failure("reset").to_string(), "TTS HTTP error: reset");
    assert_eq!(
        synthesis_refused("429 Too Many Requests", Some("slow down".to_string())).to_string(),
        "TTS synthesis failed: HTTP 429 Too Many Requests: slow down"
    );
    assert_eq!(
        synthesis_refused("500 Internal Server Error", None).to_string(),
        "TTS synthesis failed: HTTP 500 Internal Server Error: "
    );
}
