//! Speech-to-text support: WAV encoding of captured audio, and its errors.
use vstd::prelude::*;

verus! {

/// Errors of a speech-to-text provider.
#[derive(Debug)]
pub enum SttError {
    HttpError { reason: String },
    TranscriptionFailed { reason: String },
    InvalidAudio { reason: String },
}

impl SttError {
    /// The error message.
    pub open spec fn message(&self) -> Seq<char> {
        match self {
            SttError::HttpError { reason } => "HTTP request failed: "@ + reason@,
            SttError::TranscriptionFailed { reason } => "Transcription failed: "@ + reason@,
            SttError::InvalidAudio { reason } => "Invalid audio: "@ + reason@,
        }
    }

    /// The error message, e.g. "HTTP request failed: <reason>".
    pub fn to_string(&self) -> (r: String)
        ensures
            r@ == self.message(),
    {
        let mut s = String::new();
        match self {
            SttError::HttpError { reason } => {
                s.append("HTTP request failed: ");
                s.append(reason.as_str());
            },
            SttError::TranscriptionFailed { reason } => {
                s.append("Transcription failed: ");
                s.append(reason.as_str());
            },
            SttError::InvalidAudio { reason } => {
                s.append("Invalid audio: ");
                s.append(reason.as_str());
            },
        }
        s
    }
}

/// Little-endian bytes of a 16-bit value.
pub open spec fn le16(x: int) -> Seq<u8> {
    seq![(x % 256) as u8, ((x / 256) % 256) as u8]
}

/// Little-endian bytes of a 32-bit value.
pub open spec fn le32(x: int) -> Seq<u8> {
    seq![
        (x % 256) as u8,
        ((x / 256) % 256) as u8,
        ((x / 65536) % 256) as u8,
        ((x / 16777216) % 256) as u8,
    ]
}

/// The two's-complement bit pattern of a sample, as an unsigned 16-bit value.
pub open spec fn sample_bits(s: i16) -> int {
    if s < 0 {
        s + 65536
    } else {
        s as int
    }
}

/// The 44-byte RIFF/WAVE header for `n` mono 16-bit samples at `sample_rate` Hz.
pub open spec fn wav_header(sample_rate: u32, n: nat) -> Seq<u8> {
    let data_size: int = 2 * (n as int);
    seq![0x52u8, 0x49, 0x46, 0x46]  // "RIFF"
     + le32(36 + data_size) + seq![0x57u8, 0x41, 0x56, 0x45]  // "WAVE"
     + seq![0x66u8, 0x6d, 0x74, 0x20]  // "fmt "
     + le32(16) + le16(1)  // PCM
     + le16(1)  // mono
     + le32(sample_rate as int) + le32(2 * sample_rate)  // byte rate
     + le16(2)  // block align
     + le16(16)  // bits per sample
     + seq![0x64u8, 0x61, 0x74, 0x61]  // "data"
     + le32(data_size)
}

/// Byte `k` of the little-endian sample data.
pub open spec fn sample_byte(pcm: Seq<i16>, k: int) -> u8 {
    le16(sample_bits(pcm[k / 2]))[k % 2]
}

/// The little-endian sample data.
pub open spec fn sample_bytes(pcm: Seq<i16>) -> Seq<u8> {
    Seq::new(2 * pcm.len(), |k: int| sample_byte(pcm, k))
}

/// A complete WAV file holding `pcm`.
pub open spec fn wav_file(pcm: Seq<i16>, sample_rate: u32) -> Seq<u8> {
    wav_header(sample_rate, pcm.len()) + sample_bytes(pcm)
}

fn push_le16(buf: &mut Vec<u8>, x: u16)
    ensures
        final(buf)@ == old(buf)@ + le16(x as int),
{
    buf.push((x % 256) as u8);
    buf.push((x / 256) as u8);
    assert(final(buf)@ =~= old(buf)@ + le16(x as int));
}

fn push_le32(buf: &mut Vec<u8>, x: u32)
    ensures
        final(buf)@ == old(buf)@ + le32(x as int),
{
    buf.push((x % 256) as u8);
    buf.push(((x / 256) % 256) as u8);
    buf.push(((x / 65536) % 256) as u8);
    buf.push((x / 16777216) as u8);
    assert(final(buf)@ =~= old(buf)@ + le32(x as int));
}

fn push_bytes4(buf: &mut Vec<u8>, a: u8, b: u8, c: u8, d: u8)
    ensures
        final(buf)@ == old(buf)@ + seq![a, b, c, d],
{
    buf.push(a);
    buf.push(b);
    buf.push(c);
    buf.push(d);
    assert(final(buf)@ =~= old(buf)@ + seq![a, b, c, d]);
}

/// Encode PCM i16 samples into a WAV file in memory.
///
/// Produces a standard 44-byte RIFF/WAVE header (PCM format, mono,
/// 16-bit) followed by the raw sample bytes in little-endian order.
/// The sizes in the header must fit in 32 bits.
pub fn encode_wav(pcm_data: &[i16], sample_rate: u32) -> (r: Vec<u8>)
    requires
        36 + 2 * pcm_data@.len() <= u32::MAX,
        2 * sample_rate <= u32::MAX,
    ensures
        r@ == wav_file(pcm_data@, sample_rate),
        r@.len() == 44 + 2 * pcm_data@.len(),
{
    let num_channels: u16 = 1;
    let bits_per_sample: u16 = 16;
    // one channel of two-byte samples
    let byte_rate: u32 = sample_rate * 2;
    let block_align: u16 = num_channels * (bits_per_sample / 8);
    let data_size: u32 = (pcm_data.len() * 2) as u32;
    let file_size: u32 = 36 + data_size;

    let mut buf: Vec<u8> = Vec::new();

    // RIFF header
    push_bytes4(&mut buf, 0x52, 0x49, 0x46, 0x46);
    push_le32(&mut buf, file_size);
    push_bytes4(&mut buf, 0x57, 0x41, 0x56, 0x45);
    // fmt sub-chunk
    push_bytes4(&mut buf, 0x66, 0x6d, 0x74, 0x20);
    push_le32(&mut buf, 16);
    push_le16(&mut buf, 1);
    push_le16(&mut buf, num_channels);
    push_le32(&mut buf, sample_rate);
    push_le32(&mut buf, byte_rate);
    push_le16(&mut buf, block_align);
    push_le16(&mut buf, bits_per_sample);
    // data sub-chunk
    push_bytes4(&mut buf, 0x64, 0x61, 0x74, 0x61);
    push_le32(&mut buf, data_size);

    let ghost header = wav_header(sample_rate, pcm_data@.len());
    assert(buf@ =~= header);

    let mut i: usize = 0;
    while i < pcm_data.len()
        invariant
            i <= pcm_data@.len(),
            header == wav_header(sample_rate, pcm_data@.len()),
            buf@ == header + sample_bytes(pcm_data@.take(i as int)),
        decreases pcm_data.len() - i,
    {
        let sample = pcm_data[i];
        let bits: u16 = if sample < 0 {
            (sample as i32 + 65536) as u16
        } else {
            sample as u16
        };
        let ghost before = buf@;
        push_le16(&mut buf, bits);
        let ghost prev = pcm_data@.take(i as int);
        let ghost next = pcm_data@.take(i + 1);
        assert forall|k: int| 0 <= k < 2 * prev.len() implies #[trigger] sample_byte(next, k)
            == sample_byte(prev, k) by {
            assert(next[k / 2] == prev[k / 2]);
        }
        assert(sample_byte(next, 2 * i) == le16(bits as int)[0]);
        assert(sample_byte(next, 2 * i + 1) == le16(bits as int)[1]);
        assert(sample_bytes(next) =~= sample_bytes(prev) + le16(bits as int));
        assert(buf@ =~= header + sample_bytes(next));
        i = i + 1;
    }
    assert(pcm_data@.take(pcm_data.len() as int) =~= pcm_data@);
    buf
}

/// The little-endian 16-bit value at `at` in `b`.
pub open spec fn le16_at(b: Seq<u8>, at: int) -> int {
    b[at] as int + 256 * (b[at + 1] as int)
}

/// The little-endian 32-bit value at `at` in `b`.
pub open spec fn le32_at(b: Seq<u8>, at: int) -> int {
    b[at] as int + 256 * (b[at + 1] as int) + 65536 * (b[at + 2] as int) + 16777216 * (
    b[at + 3] as int)
}

/// The sample whose two's-complement bit pattern is `bits`.
pub open spec fn sample_from_bits(bits: int) -> int {
    if bits >= 32768 {
        bits - 65536
    } else {
        bits
    }
}

proof fn lemma_le16_reads_back(x: int)
    requires
        0 <= x < 65536,
    ensures
        le16_at(le16(x), 0) == x,
{
    assert(x % 256 + 256 * ((x / 256) % 256) == x) by (nonlinear_arith)
        requires
            0 <= x < 65536,
    ;
}

proof fn lemma_le32_reads_back(x: int)
    requires
        0 <= x <= u32::MAX,
    ensures
        le32_at(le32(x), 0) == x,
{
    assert(x % 256 + 256 * ((x / 256) % 256) + 65536 * ((x / 65536) % 256) + 16777216 * ((x
        / 16777216) % 256) == x) by (nonlinear_arith)
        requires
            0 <= x <= u32::MAX,
    ;
}

/// Reading a WAV file back: its header gives the format (PCM, mono, 16-bit),
/// the sample rate and the sizes, and its data gives back every sample.
pub proof fn lemma_wav_reads_back(pcm: Seq<i16>, sample_rate: u32)
    requires
        36 + 2 * pcm.len() <= u32::MAX,
        2 * sample_rate <= u32::MAX,
    ensures
        wav_file(pcm, sample_rate).len() == 44 + 2 * pcm.len(),
        le32_at(wav_file(pcm, sample_rate), 4) == 36 + 2 * pcm.len(),
        le32_at(wav_file(pcm, sample_rate), 16) == 16,
        le16_at(wav_file(pcm, sample_rate), 20) == 1,
        le16_at(wav_file(pcm, sample_rate), 22) == 1,
        le32_at(wav_file(pcm, sample_rate), 24) == sample_rate,
        le32_at(wav_file(pcm, sample_rate), 28) == 2 * sample_rate,
        le16_at(wav_file(pcm, sample_rate), 32) == 2,
        le16_at(wav_file(pcm, sample_rate), 34) == 16,
        le32_at(wav_file(pcm, sample_rate), 40) == 2 * pcm.len(),
        forall|k: int|
            0 <= k < pcm.len() ==> sample_from_bits(
                #[trigger] le16_at(wav_file(pcm, sample_rate), 44 + 2 * k),
            ) == pcm[k],
{
    let w = wav_file(pcm, sample_rate);
    let n = pcm.len() as int;
    let h = wav_header(sample_rate, pcm.len());
    assert(h.len() == 44);
    assert(forall|i: int| 0 <= i < 44 ==> w[i] == h[i]);
    lemma_le32_reads_back(36 + 2 * n);
    lemma_le32_reads_back(16);
    lemma_le16_reads_back(1);
    lemma_le32_reads_back(sample_rate as int);
    lemma_le32_reads_back(2 * sample_rate);
    lemma_le16_reads_back(2);
    lemma_le16_reads_back(16);
    lemma_le32_reads_back(2 * n);
    assert(le32_at(w, 4) == le32_at(le32(36 + 2 * n), 0));
    assert(le32_at(w, 16) == le32_at(le32(16), 0));
    assert(le16_at(w, 20) == le16_at(le16(1), 0));
    assert(le16_at(w, 22) == le16_at(le16(1), 0));
    assert(le32_at(w, 24) == le32_at(le32(sample_rate as int), 0));
    assert(le32_at(w, 28) == le32_at(le32(2 * sample_rate), 0));
    assert(le16_at(w, 32) == le16_at(le16(2), 0));
    assert(le16_at(w, 34) == le16_at(le16(16), 0));
    assert(le32_at(w, 40) == le32_at(le32(2 * n), 0));
    assert forall|k: int| 0 <= k < n implies sample_from_bits(
        #[trigger] le16_at(w, 44 + 2 * k),
    ) == pcm[k] by {
        let bits = sample_bits(pcm[k]);
        assert(0 <= bits < 65536);
        lemma_le16_reads_back(bits);
        assert(w[44 + 2 * k] == sample_byte(pcm, 2 * k));
        assert(w[44 + 2 * k + 1] == sample_byte(pcm, 2 * k + 1));
        assert((2 * k) / 2 == k && (2 * k) % 2 == 0);
        assert((2 * k + 1) / 2 == k && (2 * k + 1) % 2 == 1);
    }
}

/// The OpenAI endpoint that transcribes audio.
pub const TRANSCRIPTION_URL: &'static str = "https://api.openai.com/v1/audio/transcriptions";

/// The transcription model.
pub const TRANSCRIPTION_MODEL: &'static str = "whisper-1";

/// The audio to upload for transcription: `pcm_data` as a WAV file. Empty
/// audio is refused first; the WAV header's 32-bit sizes must fit the rest.
pub fn prepare_transcription(pcm_data: &[i16], sample_rate: u32) -> (r: Result<Vec<u8>, SttError>)
    requires
        pcm_data@.len() > 0 ==> 36 + 2 * pcm_data@.len() <= u32::MAX && 2 * sample_rate
            <= u32::MAX,
    ensures
        pcm_data@.len() == 0 ==> (r matches Err(SttError::InvalidAudio { reason }) && reason@
            == "PCM data is empty"@),
        pcm_data@.len() > 0 ==> (r matches Ok(wav) && wav@ == wav_file(pcm_data@, sample_rate)),
{
    if pcm_data.len() == 0 {
        return Err(SttError::InvalidAudio { reason: "PCM data is empty".to_owned() });
    }
    Ok(encode_wav(pcm_data, sample_rate))
}

/// The request failed before a reply came, explained by `detail`.
pub fn http_failure(detail: &str) -> (r: SttError)
    ensures
        r matches SttError::HttpError { reason } && reason@ == detail@,
{
    SttError::HttpError { reason: detail.to_owned() }
}

/// The service refused the transcription with `status`, explaining in `body`
/// (a placeholder when the body could not be read).
pub fn transcription_refused(status: &str, body: Option<String>) -> (r: SttError)
    ensures
        r matches SttError::TranscriptionFailed { reason } && reason@ == "API returned "@ + status@
            + ": "@ + match body {
            Some(b) => b@,
            None => "unable to read body"@,
        },
{
    let mut reason = String::new();
    reason.append("API returned ");
    reason.append(status);
    reason.append(": ");
    match body {
        Some(b) => reason.append(b.as_str()),
        None => reason.append("unable to read body"),
    }
    SttError::TranscriptionFailed { reason }
}

/// The service's reply could not be parsed, explained by `detail`.
pub fn unparsable_reply(detail: &str) -> (r: SttError)
    ensures
        r matches SttError::TranscriptionFailed { reason } && reason@ == "failed to parse response: "@
            + detail@,
{
    let mut reason = String::new();
    reason.append("failed to parse response: ");
    reason.append(detail);
    SttError::TranscriptionFailed { reason }
}

} // verus!
