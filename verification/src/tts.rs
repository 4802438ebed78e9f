//! Text-to-speech support: sentence splitting for streamed synthesis, and its errors.
use vstd::prelude::*;

use crate::text::{
    chars_of, is_whitespace, lemma_trim_idempotent, lemma_trim_skips_leading_whitespace,
    spec_is_whitespace, trim, trim_str,
};

verus! {

/// Errors of a text-to-speech provider.
#[derive(Debug)]
pub enum TtsError {
    HttpError { reason: String },
    SynthesisFailed { reason: String },
}

impl TtsError {
    /// The error message.
    pub open spec fn message(&self) -> Seq<char> {
        match self {
            TtsError::HttpError { reason } => "TTS HTTP error: "@ + reason@,
            TtsError::SynthesisFailed { reason } => "TTS synthesis failed: "@ + reason@,
        }
    }

    /// The error message: "TTS HTTP error: <reason>" or "TTS synthesis failed: <reason>".
    pub fn to_string(&self) -> (r: String)
        ensures
            r@ == self.message(),
    {
        let mut s = String::new();
        match self {
            TtsError::HttpError { reason } => {
                s.append("TTS HTTP error: ");
                s.append(reason.as_str());
            },
            TtsError::SynthesisFailed { reason } => {
                s.append("TTS synthesis failed: ");
                s.append(reason.as_str());
            },
        }
        s
    }
}

/// Position `i` ends a sentence: `.`, `!` or `?` followed by whitespace or the end of the text.
pub open spec fn ends_sentence(s: Seq<char>, i: int) -> bool {
    &&& (s[i] == '.' || s[i] == '!' || s[i] == '?')
    &&& (i + 1 >= s.len() || spec_is_whitespace(s[i + 1]))
}

/// The trimmed piece, unless it is empty.
pub open spec fn nonempty_trimmed(piece: Seq<char>) -> Seq<Seq<char>> {
    if trim(piece).len() > 0 {
        seq![trim(piece)]
    } else {
        seq![]
    }
}

/// The sentences of `s[start..]`, scanning for sentence ends from position `i`.
pub open spec fn sentences_from(s: Seq<char>, start: int, i: int) -> Seq<Seq<char>>
    decreases s.len() - i,
{
    if i >= s.len() {
        nonempty_trimmed(s.subrange(start, s.len() as int))
    } else if ends_sentence(s, i) {
        nonempty_trimmed(s.subrange(start, i + 1)) + sentences_from(s, i + 1, i + 1)
    } else {
        sentences_from(s, start, i + 1)
    }
}

/// The text cut right after every sentence end, each piece trimmed, empty pieces dropped.
pub open spec fn sentences(s: Seq<char>) -> Seq<Seq<char>> {
    sentences_from(s, 0, 0)
}

/// Positions that do not end a sentence can be scanned past.
proof fn lemma_scan_past(s: Seq<char>, start: int, i: int, j: int)
    requires
        0 <= start <= i <= j <= s.len(),
        forall|m: int| i <= m < j ==> !ends_sentence(s, m),
    ensures
        sentences_from(s, start, i) == sentences_from(s, start, j),
    decreases j - i,
{
    if i < j {
        lemma_scan_past(s, start, i + 1, j);
    }
}

/// Whitespace at the start of the current piece does not change the sentences.
proof fn lemma_skip_leading_whitespace(s: Seq<char>, a: int, b: int, k: int)
    requires
        0 <= a <= b <= k <= s.len(),
        forall|m: int| a <= m < b ==> spec_is_whitespace(#[trigger] s[m]),
    ensures
        sentences_from(s, a, k) == sentences_from(s, b, k),
    decreases s.len() - k,
{
    if k >= s.len() {
        lemma_trim_skips_leading_whitespace(s, a, b, s.len() as int);
    } else if ends_sentence(s, k) {
        lemma_trim_skips_leading_whitespace(s, a, b, k + 1);
    } else {
        lemma_skip_leading_whitespace(s, a, b, k + 1);
    }
}

/// The views of a list of string slices.
pub open spec fn str_views(v: Seq<&str>) -> Seq<Seq<char>> {
    v.map_values(|x: &str| x@)
}

/// Split text on sentence boundaries for streaming TTS.
///
/// Splits on `.`, `!`, or `?` followed by whitespace or end of string;
/// each sentence is trimmed and empty ones are dropped.
pub fn split_sentences(text: &str) -> (r: Vec<&str>)
    ensures
        str_views(r@) == sentences(text@),
{
    let chars = chars_of(text);
    let len = chars.len();
    let ghost s = text@;
    let mut out: Vec<&str> = Vec::new();
    let mut start: usize = 0;
    let mut i: usize = 0;
    while i < len
        invariant
            s == text@,
            chars@ == s,
            len == s.len(),
            start <= i <= len,
            str_views(out@) + sentences_from(s, start as int, i as int) == sentences(s),
        decreases len - i,
    {
        let ch = chars[i];
        let at_end = i + 1 >= len;
        let boundary = (ch == '.' || ch == '!' || ch == '?') && (at_end || is_whitespace(
            chars[i + 1],
        ));
        if boundary {
            assert(ends_sentence(s, i as int));
            let segment = trim_str(text.substring_char(start, i + 1));
            let ghost before = out@;
            if !segment.is_empty() {
                out.push(segment);
                assert(str_views(out@) =~= str_views(before).push(segment@));
            }
            assert(str_views(out@) =~= str_views(before) + nonempty_trimmed(
                s.subrange(start as int, i + 1),
            ));
            // Skip the whitespace after the punctuation.
            let next = i + 1;
            let mut j = next;
            while j < len && is_whitespace(chars[j])
                invariant
                    next <= j <= len,
                    chars@ == s,
                    len == s.len(),
                    forall|m: int| next <= m < j ==> spec_is_whitespace(#[trigger] s[m]),
                decreases len - j,
            {
                j = j + 1;
            }
            proof {
                assert forall|m: int| next <= m < j implies !ends_sentence(s, m) by {
                    assert(spec_is_whitespace(s[m]));
                }
                lemma_scan_past(s, next as int, next as int, j as int);
                lemma_skip_leading_whitespace(s, next as int, j as int, j as int);
                assert(str_views(out@) + sentences_from(s, j as int, j as int) =~= str_views(
                    before,
                ) + (nonempty_trimmed(s.subrange(start as int, i + 1)) + sentences_from(
                    s,
                    next as int,
                    next as int,
                )));
            }
            start = j;
            i = j;
        } else {
            assert(!ends_sentence(s, i as int));
            i = i + 1;
        }
    }
    let trailing = trim_str(text.substring_char(start, len));
    let ghost before = out@;
    if !trailing.is_empty() {
        out.push(trailing);
        assert(str_views(out@) =~= str_views(before).push(trailing@));
    }
    assert(str_views(out@) =~= str_views(before) + nonempty_trimmed(
        s.subrange(start as int, len as int),
    ));
    out
}

/// The OpenAI endpoint that synthesizes speech.
pub const SPEECH_URL: &'static str = "https://api.openai.com/v1/audio/speech";

/// The speech model.
pub const SPEECH_MODEL: &'static str = "tts-1";

/// The audio format asked for: Opus.
pub const SPEECH_FORMAT: &'static str = "opus";

/// The request failed before or while reading the reply, explained by `detail`.
pub fn http_failure(detail: &str) -> (r: TtsError)
    ensures
        r matches TtsError::HttpError { reason } && reason@ == detail@,
{
    TtsError::HttpError { reason: detail.to_owned() }
}

/// The service refused the synthesis with `status`, explaining in `body`
/// (empty when the body could not be read).
pub fn synthesis_refused(status: &str, body: Option<String>) -> (r: TtsError)
    ensures
        r matches TtsError::SynthesisFailed { reason } && reason@ == "HTTP "@ + status@ + ": "@
            + match body {
            Some(b) => b@,
            None => Seq::<char>::empty(),
        },
{
    let mut reason = String::new();
    reason.append("HTTP ");
    reason.append(status);
    reason.append(": ");
    match body {
        Some(b) => reason.append(b.as_str()),
        None => {},
    }
    TtsError::SynthesisFailed { reason }
}

/// No sentence is empty, and each is trimmed.
pub proof fn lemma_sentences_nonempty_and_trimmed(s: Seq<char>)
    ensures
        forall|k: int|
            0 <= k < sentences(s).len() ==> #[trigger] sentences(s)[k].len() > 0 && trim(
                sentences(s)[k],
            ) == sentences(s)[k],
{
    lemma_sentences_from_nonempty(s, 0, 0);
}

proof fn lemma_sentences_from_nonempty(s: Seq<char>, start: int, i: int)
    requires
        0 <= start <= i,
    ensures
        forall|k: int|
            0 <= k < sentences_from(s, start, i).len() ==> #[trigger] sentences_from(
                s,
                start,
                i,
            )[k].len() > 0 && trim(sentences_from(s, start, i)[k]) == sentences_from(s, start, i)[k],
    decreases s.len() - i,
{
    let all = sentences_from(s, start, i);
    if i >= s.len() {
        lemma_nonempty_trimmed(s.subrange(start, s.len() as int));
        assert(all == nonempty_trimmed(s.subrange(start, s.len() as int)));
    } else if ends_sentence(s, i) {
        lemma_sentences_from_nonempty(s, i + 1, i + 1);
        let head = nonempty_trimmed(s.subrange(start, i + 1));
        lemma_nonempty_trimmed(s.subrange(start, i + 1));
        let rest = sentences_from(s, i + 1, i + 1);
        assert(all == head + rest);
        assert forall|k: int| 0 <= k < all.len() implies #[trigger] all[k].len() > 0 && trim(all[k])
            == all[k] by {
            if k >= head.len() {
                assert(all[k] == rest[k - head.len()]);
            } else {
                assert(all[k] == head[k]);
            }
        }
    } else {
        lemma_sentences_from_nonempty(s, start, i + 1);
        assert(all == sentences_from(s, start, i + 1));
    }
}

proof fn lemma_nonempty_trimmed(piece: Seq<char>)
    ensures
        forall|k: int|
            0 <= k < nonempty_trimmed(piece).len() ==> #[trigger] nonempty_trimmed(piece)[k].len()
                > 0 && trim(nonempty_trimmed(piece)[k]) == nonempty_trimmed(piece)[k],
{
    lemma_trim_idempotent(piece);
}

} // verus!
