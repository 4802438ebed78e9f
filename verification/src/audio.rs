//! Per-user audio buffering and silence-based voice activity detection.
//!
//! Decoded PCM arrives per SSRC; this module buffers it per SSRC, detects
//! silence gaps, and flushes complete utterances for speech-to-text.
use vstd::prelude::*;
use std::collections::HashMap;

verus! {

broadcast use vstd::std_specs::hash::group_hash_axioms;

/// Maximum single-utterance buffer duration, in seconds.
pub const MAX_BUFFER_DURATION_SECS: u64 = 30;

/// Decoded voice audio is mono PCM at 48 kHz.
pub const SAMPLE_RATE: u32 = 48000;

/// Samples in the longest utterance kept in a buffer (`SAMPLE_RATE * MAX_BUFFER_DURATION_SECS`).
pub const MAX_SAMPLES: usize = 1440000;

/// Outside type: a point of the monotonic clock (std), carried through unchanged.
#[verifier::external_type_specification]
#[verifier::external_body]
pub struct ExInstant(std::time::Instant);

/// Trusted: `Instant::now` (std) reads the monotonic clock; nothing is stated of the reading.
#[verifier::external_body]
pub(crate) fn clock_now() -> std::time::Instant {
    std::time::Instant::now()
}

/// Trusted: `Instant::elapsed` (std), in whole nanoseconds; a clock reading, nothing is stated.
#[verifier::external_body]
pub(crate) fn nanos_since(origin: &std::time::Instant) -> u64 {
    origin.elapsed().as_nanos() as u64
}

/// A completed utterance ready for speech-to-text.
#[derive(Debug)]
pub struct Utterance {
    /// SSRC that produced this utterance.
    pub ssrc: u32,
    /// Discord user ID (if resolved from the SSRC mapping).
    pub user_id: Option<u64>,
    /// Mono PCM samples.
    pub pcm: Vec<i16>,
    /// Sample rate of the PCM data.
    pub sample_rate: u32,
}

/// Per-user audio accumulator keyed by SSRC.
struct UserBuffer {
    pcm: Vec<i16>,
    /// When voice last arrived, in nanoseconds of the pipeline's clock.
    last_voice_at: u64,
    user_id: Option<u64>,
}

/// The observable state of one buffer: its samples, when voice last arrived
/// (nanoseconds of the pipeline's clock) and the user it belongs to.
pub type BufferState = (Seq<i16>, u64, Option<u64>);

/// Manages per-user audio buffers and produces utterances on silence gaps.
pub struct AudioPipeline {
    buffers: HashMap<u32, UserBuffer>,
    silence_threshold_ms: u64,
    max_samples: usize,
    origin: std::time::Instant,
    /// The latest clock reading the pipeline has used, in nanoseconds.
    latest: u64,
}

/// The buffer holds audio and no voice has arrived for at least `threshold_ms`
/// milliseconds before `now` (a clock reading earlier than the last voice counts as no time).
pub open spec fn is_silent(b: BufferState, now: u64, threshold_ms: u64) -> bool {
    b.0.len() > 0 && (if now >= b.1 {
        now - b.1
    } else {
        0
    }) >= threshold_ms * 1000000
}

/// The buffer of `ssrc` in `m`, or an empty one belonging to no user.
pub open spec fn buffer_or_empty(m: Map<u32, BufferState>, ssrc: u32) -> BufferState {
    if m.contains_key(ssrc) {
        m[ssrc]
    } else {
        (seq![], 0, None)
    }
}

/// `u` carries the audio of buffer `b` of `ssrc`.
pub open spec fn utterance_of(u: Utterance, ssrc: u32, b: BufferState) -> bool {
    &&& u.ssrc == ssrc
    &&& u.user_id == b.2
    &&& u.pcm@ == b.0
    &&& u.sample_rate == SAMPLE_RATE
}

/// The buffers after `user_id` is mapped to `ssrc` at clock reading `now`:
/// an existing buffer keeps its audio, a new one starts empty.
pub open spec fn after_mapping(
    before: Map<u32, BufferState>,
    ssrc: u32,
    user_id: u64,
    now: u64,
) -> Map<u32, BufferState> {
    before.insert(
        ssrc,
        if before.contains_key(ssrc) {
            (before[ssrc].0, before[ssrc].1, Some(user_id))
        } else {
            (seq![], now, Some(user_id))
        },
    )
}

/// The outcome of feeding `samples` for `ssrc` at clock reading `now`: the
/// samples join the buffer, which is handed out whole (and starts over) once
/// it reaches `MAX_SAMPLES`.
pub open spec fn push_outcome(
    before: Map<u32, BufferState>,
    after: Map<u32, BufferState>,
    ssrc: u32,
    samples: Seq<i16>,
    now: u64,
    r: Option<Utterance>,
) -> bool {
    let b = buffer_or_empty(before, ssrc);
    let all = b.0 + samples;
    if all.len() >= MAX_SAMPLES {
        &&& r matches Some(u) && utterance_of(u, ssrc, (all, now, b.2))
        &&& after == before.insert(ssrc, (seq![], now, b.2))
    } else {
        &&& r is None
        &&& after == before.insert(ssrc, (all, now, b.2))
    }
}

/// The outcome of draining at clock reading `now` with a silence threshold of
/// `thr` milliseconds: every silent buffer is handed out once (in no
/// particular order) and starts over empty; the others stay.
pub open spec fn drain_outcome(
    before: Map<u32, BufferState>,
    after: Map<u32, BufferState>,
    thr: u64,
    now: u64,
    r: Seq<Utterance>,
) -> bool {
    &&& after.dom() == before.dom()
    &&& forall|k: u32| #[trigger]
        before.contains_key(k) ==> after[k] == if is_silent(before[k], now, thr) {
            (Seq::<i16>::empty(), before[k].1, before[k].2)
        } else {
            before[k]
        }
    &&& forall|i: int|
        0 <= i < r.len() ==> before.contains_key(#[trigger] r[i].ssrc) && is_silent(
            before[r[i].ssrc],
            now,
            thr,
        ) && utterance_of(r[i], r[i].ssrc, before[r[i].ssrc])
    &&& forall|i: int, j: int|
        0 <= i < r.len() && 0 <= j < r.len() && i != j ==> #[trigger] r[i].ssrc
            != #[trigger] r[j].ssrc
    &&& forall|k: u32|
        before.contains_key(k) && is_silent(#[trigger] before[k], now, thr) ==> exists|i: int|
            0 <= i < r.len() && r[i].ssrc == k
}

/// The outcome of removing `ssrc`: it is no longer tracked, and its buffered
/// audio, if there is any, is handed out.
pub open spec fn removal_outcome(
    before: Map<u32, BufferState>,
    after: Map<u32, BufferState>,
    ssrc: u32,
    r: Option<Utterance>,
) -> bool {
    &&& after == before.remove(ssrc)
    &&& match r {
        Some(u) => before.contains_key(ssrc) && before[ssrc].0.len() > 0 && utterance_of(
            u,
            ssrc,
            before[ssrc],
        ),
        None => !before.contains_key(ssrc) || before[ssrc].0.len() == 0,
    }
}

/// Appends `samples` to `v`.
fn append_samples(v: &mut Vec<i16>, samples: &[i16])
    requires
        old(v)@.len() + samples@.len() <= usize::MAX,
    ensures
        final(v)@ == old(v)@ + samples@,
{
    let mut i: usize = 0;
    while i < samples.len()
        invariant
            i <= samples@.len(),
            v@ == old(v)@ + samples@.take(i as int),
        decreases samples.len() - i,
    {
        v.push(samples[i]);
        assert(samples@.take(i + 1) =~= samples@.take(i as int).push(samples@[i as int]));
        i = i + 1;
    }
    assert(samples@.take(samples@.len() as int) =~= samples@);
}

impl AudioPipeline {
    /// The buffers, keyed by SSRC.
    pub closed spec fn buffers(&self) -> Map<u32, BufferState> {
        self.buffers@.map_values(|b: UserBuffer| (b.pcm@, b.last_voice_at, b.user_id))
    }

    /// The silence gap, in milliseconds, after which a buffer is flushed.
    pub closed spec fn silence_threshold_ms(&self) -> u64 {
        self.silence_threshold_ms
    }

    /// The latest clock reading the pipeline has used, in nanoseconds of its clock.
    pub closed spec fn latest(&self) -> u64 {
        self.latest
    }

    /// Every buffer holds fewer than `MAX_SAMPLES` samples, and no voice arrived
    /// after the latest clock reading.
    pub closed spec fn wf(&self) -> bool {
        &&& self.max_samples == MAX_SAMPLES
        &&& self.buffers@.dom().finite()
        &&& forall|k: u32| #[trigger]
            self.buffers@.contains_key(k) ==> self.buffers@[k].last_voice_at <= self.latest
        &&& forall|k: u32| #[trigger]
            self.buffers@.contains_key(k) ==> self.buffers@[k].pcm@.len() < MAX_SAMPLES
    }

    /// A pipeline with no buffers that flushes after `silence_threshold_ms` of silence.
    pub fn new(silence_threshold_ms: u64) -> (r: Self)
        ensures
            r.wf(),
            r.buffers() == Map::<u32, BufferState>::empty(),
            r.silence_threshold_ms() == silence_threshold_ms,
            r.latest() == 0,
    {
        let r = AudioPipeline {
            buffers: HashMap::new(),
            silence_threshold_ms,
            max_samples: MAX_SAMPLES,
            origin: clock_now(),
            latest: 0,
        };
        assert(r.buffers() =~= Map::<u32, BufferState>::empty());
        r
    }

    /// Nanoseconds elapsed on the pipeline's clock.
    pub fn now(&self) -> u64 {
        nanos_since(&self.origin)
    }

    /// The start of the pipeline's clock.
    pub closed spec fn origin(&self) -> std::time::Instant {
        self.origin
    }

    /// The start of the pipeline's clock.
    pub fn clock_origin(&self) -> (r: std::time::Instant)
        ensures
            r == self.origin(),
    {
        self.origin
    }

    /// Take `now` into account as a clock reading: the latest reading never goes back.
    fn advance_clock(&mut self, now: u64)
        requires
            old(self).wf(),
        ensures
            final(self).wf(),
            final(self).latest() == if now > old(self).latest() {
                now
            } else {
                old(self).latest()
            },
            final(self).buffers() == old(self).buffers(),
            final(self).silence_threshold_ms() == old(self).silence_threshold_ms(),
            final(self).origin() == old(self).origin(),
    {
        if now > self.latest {
            self.latest = now;
        }
    }

    /// A reading of the pipeline's monotone clock, in nanoseconds: never
    /// earlier than any reading used before.
    pub(crate) fn read_clock(&self) -> (r: u64)
        ensures
            r >= self.latest(),
    {
        let t = nanos_since(&self.origin);
        if t > self.latest {
            t
        } else {
            self.latest
        }
    }

    /// No voice arrived after the latest clock reading.
    pub proof fn lemma_voice_not_after_latest(&self)
        requires
            self.wf(),
        ensures
            forall|k: u32| #[trigger]
                self.buffers().contains_key(k) ==> self.buffers()[k].1 <= self.latest(),
    {
    }

    /// Register an SSRC → user ID mapping, as of clock reading `now`.
    pub fn map_ssrc_to_user_at(&mut self, ssrc: u32, user_id: u64, now: u64)
        requires
            old(self).wf(),
        ensures
            final(self).wf(),
            final(self).silence_threshold_ms() == old(self).silence_threshold_ms(),
            final(self).buffers() == after_mapping(old(self).buffers(), ssrc, user_id, now),
            final(self).buffers().len() == old(self).buffers().len() + if old(
                self,
            ).buffers().contains_key(ssrc) {
                0int
            } else {
                1int
            },
            final(self).latest() == if now > old(self).latest() {
                now
            } else {
                old(self).latest()
            },
    {
        self.advance_clock(now);
        proof {
            self.lemma_tracked_ssrcs_finite();
        }
        let buf = match self.buffers.remove(&ssrc) {
            Some(b) => UserBuffer {
                pcm: b.pcm,
                last_voice_at: b.last_voice_at,
                user_id: Some(user_id),
            },
            None => UserBuffer { pcm: Vec::new(), last_voice_at: now, user_id: Some(user_id) },
        };
        self.buffers.insert(ssrc, buf);
        assert(self.buffers() =~= after_mapping(old(self).buffers(), ssrc, user_id, now));
    }

    /// Register an SSRC → user ID mapping (learned from voice state events).
    pub fn map_ssrc_to_user(&mut self, ssrc: u32, user_id: u64)
        requires
            old(self).wf(),
        ensures
            final(self).wf(),
            final(self).silence_threshold_ms() == old(self).silence_threshold_ms(),
            exists|now: u64|
                now >= old(self).latest() && final(self).latest() == now && final(self).buffers()
                    == after_mapping(old(self).buffers(), ssrc, user_id, now),
            final(self).buffers().len() == old(self).buffers().len() + if old(
                self,
            ).buffers().contains_key(ssrc) {
                0int
            } else {
                1int
            },
    {
        let now = self.read_clock();
        self.map_ssrc_to_user_at(ssrc, user_id, now);
    }

    /// Feed decoded PCM from the user behind `ssrc`, as of clock reading `now`.
    ///
    /// Returns the whole buffered utterance once it reaches `MAX_SAMPLES`
    /// samples; the buffer then starts over empty.
    pub fn push_audio_at(&mut self, ssrc: u32, samples: &[i16], now: u64) -> (r: Option<Utterance>)
        requires
            old(self).wf(),
            samples@.len() + MAX_SAMPLES <= usize::MAX,
        ensures
            final(self).wf(),
            final(self).silence_threshold_ms() == old(self).silence_threshold_ms(),
            push_outcome(old(self).buffers(), final(self).buffers(), ssrc, samples@, now, r),
            final(self).buffers().len() == old(self).buffers().len() + if old(
                self,
            ).buffers().contains_key(ssrc) {
                0int
            } else {
                1int
            },
            final(self).latest() == if now > old(self).latest() {
                now
            } else {
                old(self).latest()
            },
    {
        self.advance_clock(now);
        proof {
            self.lemma_tracked_ssrcs_finite();
        }
        let ghost old_map = self.buffers@;
        let mut buf = match self.buffers.remove(&ssrc) {
            Some(b) => b,
            None => UserBuffer { pcm: Vec::new(), last_voice_at: now, user_id: None },
        };
        assert(self.buffers@ == old_map.remove(ssrc));
        assert(buf.pcm@ == buffer_or_empty(old(self).buffers(), ssrc).0);
        assert(buf.user_id == buffer_or_empty(old(self).buffers(), ssrc).2);
        assert(buf.pcm@.len() < MAX_SAMPLES);
        append_samples(&mut buf.pcm, samples);
        buf.last_voice_at = now;
        if buf.pcm.len() >= self.max_samples {
            let UserBuffer { pcm, last_voice_at, user_id } = buf;
            self.buffers.insert(ssrc, UserBuffer { pcm: Vec::new(), last_voice_at, user_id });
            assert(self.buffers() =~= old(self).buffers().insert(
                ssrc,
                (seq![], now, buffer_or_empty(old(self).buffers(), ssrc).2),
            ));
            Some(Utterance { ssrc, user_id, pcm, sample_rate: SAMPLE_RATE })
        } else {
            self.buffers.insert(ssrc, buf);
            assert(self.buffers() =~= old(self).buffers().insert(
                ssrc,
                (
                    buffer_or_empty(old(self).buffers(), ssrc).0 + samples@,
                    now,
                    buffer_or_empty(old(self).buffers(), ssrc).2,
                ),
            ));
            None
        }
    }

    /// Feed decoded PCM from a single user (identified by SSRC).
    ///
    /// Returns a completed `Utterance` if the buffer hit the max duration cap.
    pub fn push_audio(&mut self, ssrc: u32, samples: &[i16]) -> (r: Option<Utterance>)
        requires
            old(self).wf(),
            samples@.len() + MAX_SAMPLES <= usize::MAX,
        ensures
            final(self).wf(),
            final(self).silence_threshold_ms() == old(self).silence_threshold_ms(),
            exists|now: u64|
                now >= old(self).latest() && final(self).latest() == now && push_outcome(
                    old(self).buffers(),
                    final(self).buffers(),
                    ssrc,
                    samples@,
                    now,
                    r,
                ),
            final(self).buffers().len() == old(self).buffers().len() + if old(
                self,
            ).buffers().contains_key(ssrc) {
                0int
            } else {
                1int
            },
    {
        let now = self.read_clock();
        self.push_audio_at(ssrc, samples, now)
    }

    /// The SSRCs that have a buffer, each once.
    fn ssrcs(&self) -> (r: Vec<u32>)
        ensures
            r@.no_duplicates(),
            r@.to_set() == self.buffers().dom(),
    {
        let mut keys: Vec<u32> = Vec::new();
        for k in it: self.buffers.keys()
            invariant
                it.seq().unref().to_set() == self.buffers@.dom(),
                it.seq().no_duplicates(),
                keys@ == it.seq().unref().take(it.index()),
                keys@.no_duplicates(),
                forall|x: u32| keys@.contains(x) ==> self.buffers@.dom().contains(x),
                forall|x: u32|
                    self.buffers@.dom().contains(x) ==> keys@.contains(x) || exists|j: int|
                        it.index() <= j < it.seq().len() && #[trigger] it.seq().unref()[j] == x,
        {
            let ghost all = it.seq().unref();
            let ghost n = it.index();
            assert(all[n] == *k);
            assert(all.contains(*k));
            assert(!keys@.contains(*k)) by {
                if keys@.contains(*k) {
                    let j = choose|j: int| 0 <= j < keys@.len() && keys@[j] == *k;
                    assert(all[j] == all[n]);
                    assert(*it.seq()[j] == *it.seq()[n]);
                }
            }
            let ghost before = keys@;
            keys.push(*k);
            assert(all.take(n + 1) =~= all.take(n).push(*k));
            assert forall|x: u32| self.buffers@.dom().contains(x) implies keys@.contains(x) || exists|
                j: int,
            | n + 1 <= j < all.len() && #[trigger] all[j] == x by {
                if !before.contains(x) {
                    let j = choose|j: int| n <= j < all.len() && #[trigger] all[j] == x;
                    if j == n {
                        assert(keys@[n] == x);
                    } else {
                        assert(all[j] == x);
                    }
                } else {
                    let j = choose|j: int| 0 <= j < before.len() && before[j] == x;
                    assert(keys@[j] == x);
                }
            }
            assert forall|x: u32| keys@.contains(x) implies self.buffers@.dom().contains(x) by {
                let j = choose|j: int| 0 <= j < keys@.len() && keys@[j] == x;
                if j < before.len() {
                    assert(before[j] == x);
                } else {
                    assert(all.to_set().contains(x));
                }
            }
        }
        assert(self.buffers().dom() =~= self.buffers@.dom());
        assert(keys@.to_set() =~= self.buffers@.dom());
        keys
    }

    /// Check all buffers for silence gaps at clock reading `now` and return
    /// the completed utterances, one per silent buffer (in no particular order);
    /// the silent buffers start over empty.
    pub fn drain_silent_at(&mut self, now: u64) -> (r: Vec<Utterance>)
        requires
            old(self).wf(),
        ensures
            final(self).wf(),
            final(self).silence_threshold_ms() == old(self).silence_threshold_ms(),
            drain_outcome(
                old(self).buffers(),
                final(self).buffers(),
                old(self).silence_threshold_ms(),
                now,
                r@,
            ),
            final(self).latest() == if now > old(self).latest() {
                now
            } else {
                old(self).latest()
            },
    {
        self.advance_clock(now);
        let ghost lat = self.latest;
        let keys = self.ssrcs();
        let ghost old_buffers = self.buffers();
        let threshold_ns: u128 = (self.silence_threshold_ms as u128) * 1000000;
        let mut out: Vec<Utterance> = Vec::new();
        let mut i: usize = 0;
        while i < keys.len()
            invariant
                self.wf(),
                self.latest == lat,
                self.silence_threshold_ms == old(self).silence_threshold_ms,
                old_buffers == old(self).buffers(),
                threshold_ns == self.silence_threshold_ms * 1000000,
                keys@.no_duplicates(),
                keys@.to_set() == old_buffers.dom(),
                i <= keys.len(),
                self.buffers().dom() == old_buffers.dom(),
                forall|k: u32| #[trigger]
                    old_buffers.contains_key(k) ==> self.buffers()[k] == if keys@.take(
                        i as int,
                    ).contains(k) && is_silent(old_buffers[k], now, self.silence_threshold_ms) {
                        (Seq::<i16>::empty(), old_buffers[k].1, old_buffers[k].2)
                    } else {
                        old_buffers[k]
                    },
                forall|j: int|
                    0 <= j < out@.len() ==> keys@.take(i as int).contains(#[trigger] out@[j].ssrc)
                        && old_buffers.contains_key(out@[j].ssrc) && is_silent(
                        old_buffers[out@[j].ssrc],
                        now,
                        self.silence_threshold_ms,
                    ) && utterance_of(out@[j], out@[j].ssrc, old_buffers[out@[j].ssrc]),
                forall|a: int, b: int|
                    0 <= a < out@.len() && 0 <= b < out@.len() && a != b ==> #[trigger] out@[a].ssrc
                        != #[trigger] out@[b].ssrc,
                forall|k: u32|
                    keys@.take(i as int).contains(k) && old_buffers.contains_key(k) && is_silent(
                        #[trigger] old_buffers[k],
                        now,
                        self.silence_threshold_ms,
                    ) ==> exists|j: int| 0 <= j < out@.len() && out@[j].ssrc == k,
            decreases keys.len() - i,
        {
            let ssrc = keys[i];
            assert(keys@.to_set().contains(ssrc));
            assert(!keys@.take(i as int).contains(ssrc)) by {
                if keys@.take(i as int).contains(ssrc) {
                    let j = choose|j: int| 0 <= j < i && keys@.take(i as int)[j] == ssrc;
                    assert(keys@[j] == keys@[i as int]);
                }
            }
            assert(keys@.take(i + 1) =~= keys@.take(i as int).push(ssrc));
            assert forall|k: u32| #[trigger]
                keys@.take(i + 1).contains(k) <==> (keys@.take(i as int).contains(k) || k == ssrc) by {
                let t = keys@.take(i as int);
                let t1 = keys@.take(i + 1);
                if t1.contains(k) {
                    let j = choose|j: int| 0 <= j < t1.len() && t1[j] == k;
                    if j < t.len() {
                        assert(t[j] == k);
                    }
                }
                if t.contains(k) {
                    let j = choose|j: int| 0 <= j < t.len() && t[j] == k;
                    assert(t1[j] == k);
                }
                if k == ssrc {
                    assert(t1[t.len() as int] == k);
                }
            }
            assert(old_buffers.contains_key(ssrc));
            assert(self.buffers()[ssrc] == old_buffers[ssrc]);
            let ghost map_before = self.buffers@;
            let ghost view_before = self.buffers();
            let buf = self.buffers.remove(&ssrc).unwrap();
            assert(self.buffers@ == map_before.remove(ssrc));
            assert((buf.pcm@, buf.last_voice_at, buf.user_id) == old_buffers[ssrc]);
            let elapsed: u64 = if now >= buf.last_voice_at {
                now - buf.last_voice_at
            } else {
                0
            };
            let silent = buf.pcm.len() > 0 && (elapsed as u128) >= threshold_ns;
            assert(silent == is_silent(old_buffers[ssrc], now, self.silence_threshold_ms));
            if silent {
                let UserBuffer { pcm, last_voice_at, user_id } = buf;
                self.buffers.insert(ssrc, UserBuffer { pcm: Vec::new(), last_voice_at, user_id });
                assert(self.buffers() =~= view_before.insert(
                    ssrc,
                    (Seq::<i16>::empty(), old_buffers[ssrc].1, old_buffers[ssrc].2),
                ));
                let ghost out_before = out@;
                out.push(Utterance { ssrc, user_id, pcm, sample_rate: SAMPLE_RATE });
                assert(forall|j: int| 0 <= j < out_before.len() ==> out@[j] == out_before[j]);
                assert(out@[out@.len() - 1].ssrc == ssrc);
                assert(forall|j: int|
                    0 <= j < out_before.len() ==> keys@.take(i as int).contains(
                        #[trigger] out_before[j].ssrc,
                    ));
            } else {
                self.buffers.insert(ssrc, buf);
                assert(self.buffers@ =~= map_before);
            }
            i = i + 1;
        }
        assert(keys@.take(keys.len() as int) =~= keys@);
        assert forall|k: u32| old_buffers.contains_key(k) implies keys@.contains(k) by {
            assert(keys@.to_set().contains(k));
        }
        out
    }

    /// Check all buffers for silence gaps and return completed utterances.
    ///
    /// Call this periodically (e.g. every 100 ms via a tick timer).
    pub fn drain_silent(&mut self) -> (r: Vec<Utterance>)
        requires
            old(self).wf(),
        ensures
            final(self).wf(),
            final(self).silence_threshold_ms() == old(self).silence_threshold_ms(),
            exists|now: u64|
                now >= old(self).latest() && final(self).latest() == now && drain_outcome(
                    old(self).buffers(),
                    final(self).buffers(),
                    old(self).silence_threshold_ms(),
                    now,
                    r@,
                ),
    {
        let now = self.read_clock();
        self.drain_silent_at(now)
    }

    /// Remove tracking for an SSRC (user left the voice channel), returning
    /// its buffered audio if there is any.
    pub fn remove_ssrc(&mut self, ssrc: u32) -> (r: Option<Utterance>)
        requires
            old(self).wf(),
        ensures
            final(self).wf(),
            final(self).silence_threshold_ms() == old(self).silence_threshold_ms(),
            removal_outcome(old(self).buffers(), final(self).buffers(), ssrc, r),
            final(self).latest() == old(self).latest(),
            final(self).buffers().len() == old(self).buffers().len() - if old(
                self,
            ).buffers().contains_key(ssrc) {
                1int
            } else {
                0int
            },
    {
        proof {
            self.lemma_tracked_ssrcs_finite();
        }
        let removed = self.buffers.remove(&ssrc);
        assert(self.buffers() =~= old(self).buffers().remove(ssrc));
        match removed {
            None => None,
            Some(buf) => {
                if buf.pcm.len() == 0 {
                    None
                } else {
                    Some(
                        Utterance {
                            ssrc,
                            user_id: buf.user_id,
                            pcm: buf.pcm,
                            sample_rate: SAMPLE_RATE,
                        },
                    )
                }
            },
        }
    }

    /// A well-formed pipeline tracks finitely many SSRCs.
    pub proof fn lemma_tracked_ssrcs_finite(&self)
        requires
            self.wf(),
        ensures
            self.buffers().dom().finite(),
    {
        assert(self.buffers().dom() =~= self.buffers@.dom());
    }

    /// Number of active buffers (users being tracked).
    pub fn active_count(&self) -> (r: usize)
        ensures
            r == self.buffers().len(),
    {
        assert(self.buffers().dom() =~= self.buffers@.dom());
        self.buffers.len()
    }
}

/// Audio that arrived less than the silence threshold ago is never taken for
/// a finished utterance, and an empty buffer never is.
pub proof fn lemma_recent_or_empty_not_silent(b: BufferState, now: u64, threshold_ms: u64)
    requires
        b.0.len() == 0 || (b.1 <= now && now < b.1 + threshold_ms * 1000000),
    ensures
        !is_silent(b, now, threshold_ms),
{
}

/// Draining again at the same moment hands out nothing more.
pub proof fn lemma_drain_is_idempotent(
    b0: Map<u32, BufferState>,
    b1: Map<u32, BufferState>,
    b2: Map<u32, BufferState>,
    thr: u64,
    now: u64,
    r1: Seq<Utterance>,
    r2: Seq<Utterance>,
)
    requires
        drain_outcome(b0, b1, thr, now, r1),
        drain_outcome(b1, b2, thr, now, r2),
    ensures
        r2.len() == 0,
        b2 == b1,
{
    assert forall|k: u32| b1.contains_key(k) implies !is_silent(#[trigger] b1[k], now, thr) by {
        assert(b0.contains_key(k));
    }
    if r2.len() > 0 {
        assert(b1.contains_key(r2[0].ssrc));
    }
    assert(b2 =~= b1);
}

/// The audio buffered for `s`.
pub open spec fn pending(b: Map<u32, BufferState>, s: u32) -> Seq<i16> {
    buffer_or_empty(b, s).0
}

/// The audio that the utterances of `s` among `us` carry, in order.
pub open spec fn audio_of(us: Seq<Utterance>, s: u32) -> Seq<i16>
    decreases us.len(),
{
    if us.len() == 0 {
        seq![]
    } else {
        audio_of(us.drop_last(), s) + if us.last().ssrc == s {
            us.last().pcm@
        } else {
            Seq::<i16>::empty()
        }
    }
}

/// The utterance handed out, if any, as a sequence.
pub open spec fn option_seq(r: Option<Utterance>) -> Seq<Utterance> {
    match r {
        Some(u) => seq![u],
        None => seq![],
    }
}

/// A step keeps the audio of `s`: what it hands out for `s`, followed by what
/// stays buffered, is what was buffered followed by what came in.
pub open spec fn conserves(
    before: Map<u32, BufferState>,
    after: Map<u32, BufferState>,
    input: Seq<i16>,
    out: Seq<Utterance>,
    s: u32,
) -> bool {
    audio_of(out, s) + pending(after, s) == pending(before, s) + input
}

proof fn lemma_audio_of_absent(us: Seq<Utterance>, s: u32)
    requires
        forall|i: int| 0 <= i < us.len() ==> #[trigger] us[i].ssrc != s,
    ensures
        audio_of(us, s) == Seq::<i16>::empty(),
    decreases us.len(),
{
    if us.len() > 0 {
        assert(us.last() == us[us.len() - 1]);
        lemma_audio_of_absent(us.drop_last(), s);
        assert(Seq::<i16>::empty() + Seq::<i16>::empty() =~= Seq::<i16>::empty());
    }
}

proof fn lemma_audio_of_single(us: Seq<Utterance>, s: u32, i: int)
    requires
        0 <= i < us.len(),
        us[i].ssrc == s,
        forall|j: int| 0 <= j < us.len() && j != i ==> #[trigger] us[j].ssrc != s,
    ensures
        audio_of(us, s) == us[i].pcm@,
    decreases us.len(),
{
    let init = us.drop_last();
    assert(us.last() == us[us.len() - 1]);
    if i == us.len() - 1 {
        lemma_audio_of_absent(init, s);
        assert(Seq::<i16>::empty() + us[i].pcm@ =~= us[i].pcm@);
    } else {
        lemma_audio_of_single(init, s, i);
        assert(us[i].pcm@ + Seq::<i16>::empty() =~= us[i].pcm@);
    }
}

/// Feeding audio conserves every SSRC's audio.
pub proof fn lemma_push_conserves(
    before: Map<u32, BufferState>,
    after: Map<u32, BufferState>,
    ssrc: u32,
    samples: Seq<i16>,
    now: u64,
    r: Option<Utterance>,
    s: u32,
)
    requires
        push_outcome(before, after, ssrc, samples, now, r),
    ensures
        conserves(
            before,
            after,
            if s == ssrc {
                samples
            } else {
                Seq::<i16>::empty()
            },
            option_seq(r),
            s,
        ),
{
    let out = option_seq(r);
    let b = buffer_or_empty(before, ssrc);
    if out.len() > 0 && s == ssrc {
        lemma_audio_of_single(out, s, 0);
        assert(out[0].pcm@ + Seq::<i16>::empty() =~= b.0 + samples);
    } else {
        lemma_audio_of_absent(out, s);
        if s == ssrc {
            assert(Seq::<i16>::empty() + (b.0 + samples) =~= b.0 + samples);
        } else {
            assert(pending(after, s) == pending(before, s));
            assert(Seq::<i16>::empty() + pending(after, s) =~= pending(before, s)
                + Seq::<i16>::empty());
        }
    }
}

/// Mapping an SSRC to a user conserves every SSRC's audio.
pub proof fn lemma_mapping_conserves(
    before: Map<u32, BufferState>,
    ssrc: u32,
    user_id: u64,
    now: u64,
    s: u32,
)
    ensures
        conserves(
            before,
            after_mapping(before, ssrc, user_id, now),
            Seq::<i16>::empty(),
            Seq::<Utterance>::empty(),
            s,
        ),
{
    let after = after_mapping(before, ssrc, user_id, now);
    assert(pending(after, s) == pending(before, s));
    assert(Seq::<i16>::empty() + pending(after, s) =~= pending(before, s) + Seq::<i16>::empty());
}

/// Draining conserves every SSRC's audio.
pub proof fn lemma_drain_conserves(
    before: Map<u32, BufferState>,
    after: Map<u32, BufferState>,
    thr: u64,
    now: u64,
    r: Seq<Utterance>,
    s: u32,
)
    requires
        drain_outcome(before, after, thr, now, r),
    ensures
        conserves(before, after, Seq::<i16>::empty(), r, s),
{
    if before.contains_key(s) && is_silent(before[s], now, thr) {
        let i = choose|i: int| 0 <= i < r.len() && r[i].ssrc == s;
        assert forall|j: int| 0 <= j < r.len() && j != i implies #[trigger] r[j].ssrc != s by {
            assert(r[i].ssrc != r[j].ssrc);
        }
        lemma_audio_of_single(r, s, i);
        assert(r[i].pcm@ + Seq::<i16>::empty() =~= before[s].0 + Seq::<i16>::empty());
    } else {
        assert forall|j: int| 0 <= j < r.len() implies #[trigger] r[j].ssrc != s by {
            if r[j].ssrc == s {
                assert(before.contains_key(r[j].ssrc));
            }
        }
        lemma_audio_of_absent(r, s);
        assert(pending(after, s) == pending(before, s));
        assert(Seq::<i16>::empty() + pending(after, s) =~= pending(before, s)
            + Seq::<i16>::empty());
    }
}

/// Removing an SSRC conserves every SSRC's audio: the removed one's audio is
/// handed out.
pub proof fn lemma_removal_conserves(
    before: Map<u32, BufferState>,
    after: Map<u32, BufferState>,
    ssrc: u32,
    r: Option<Utterance>,
    s: u32,
)
    requires
        removal_outcome(before, after, ssrc, r),
    ensures
        conserves(before, after, Seq::<i16>::empty(), option_seq(r), s),
{
    let out = option_seq(r);
    if out.len() > 0 && s == ssrc {
        lemma_audio_of_single(out, s, 0);
        assert(out[0].pcm@ + Seq::<i16>::empty() =~= before[s].0 + Seq::<i16>::empty());
    } else {
        lemma_audio_of_absent(out, s);
        if s == ssrc {
            assert(Seq::<i16>::empty() + Seq::<i16>::empty() =~= pending(before, s)
                + Seq::<i16>::empty());
        } else {
            assert(pending(after, s) == pending(before, s));
            assert(Seq::<i16>::empty() + pending(after, s) =~= pending(before, s)
                + Seq::<i16>::empty());
        }
    }
}

/// The pieces joined in order.
pub open spec fn joined(pieces: Seq<Seq<i16>>) -> Seq<i16>
    decreases pieces.len(),
{
    if pieces.len() == 0 {
        seq![]
    } else {
        joined(pieces.drop_last()) + pieces.last()
    }
}

/// The audio of `s` handed out over a run of steps, in order.
pub open spec fn audio_handed_out(outs: Seq<Seq<Utterance>>, s: u32) -> Seq<i16>
    decreases outs.len(),
{
    if outs.len() == 0 {
        seq![]
    } else {
        audio_handed_out(outs.drop_last(), s) + audio_of(outs.last(), s)
    }
}

/// Over a run of steps that each conserve the audio of `s` (buffers going
/// from `states[i]` to `states[i + 1]`, taking in `inputs[i]` and handing out
/// `outs[i]`), nothing of `s` is lost, duplicated or reordered: what was
/// handed out, followed by what is still buffered, is what was buffered at the
/// start followed by everything that came in.
pub proof fn lemma_run_conserves(
    states: Seq<Map<u32, BufferState>>,
    inputs: Seq<Seq<i16>>,
    outs: Seq<Seq<Utterance>>,
    s: u32,
)
    requires
        states.len() == inputs.len() + 1,
        outs.len() == inputs.len(),
        forall|i: int|
            0 <= i < inputs.len() ==> conserves(
                #[trigger] states[i],
                states[i + 1],
                inputs[i],
                outs[i],
                s,
            ),
    ensures
        audio_handed_out(outs, s) + pending(states.last(), s) == pending(states[0], s) + joined(
            inputs,
        ),
    decreases inputs.len(),
{
    let n = inputs.len() as int;
    if n == 0 {
        assert(Seq::<i16>::empty() + pending(states.last(), s) =~= pending(states[0], s)
            + Seq::<i16>::empty());
    } else {
        let st = states.drop_last();
        let ins = inputs.drop_last();
        let os = outs.drop_last();
        assert forall|i: int| 0 <= i < ins.len() implies conserves(
            #[trigger] st[i],
            st[i + 1],
            ins[i],
            os[i],
            s,
        ) by {
            assert(st[i] == states[i] && st[i + 1] == states[i + 1]);
            assert(ins[i] == inputs[i] && os[i] == outs[i]);
        }
        lemma_run_conserves(st, ins, os, s);
        assert(conserves(states[n - 1], states[n], inputs[n - 1], outs[n - 1], s));
        assert(st.last() == states[n - 1]);
        assert(states.last() == states[n]);
        let a = audio_handed_out(os, s);
        let p0 = pending(states[0], s);
        let j = joined(ins);
        assert(a + pending(states[n - 1], s) == p0 + j);
        assert(audio_of(outs[n - 1], s) + pending(states[n], s) == pending(states[n - 1], s)
            + inputs[n - 1]);
        assert(audio_handed_out(outs, s) == a + audio_of(outs[n - 1], s));
        assert(joined(inputs) == j + inputs[n - 1]);
        assert(a + audio_of(outs[n - 1], s) + pending(states[n], s) =~= a + (audio_of(
            outs[n - 1],
            s,
        ) + pending(states[n], s)));
        assert(a + (pending(states[n - 1], s) + inputs[n - 1]) =~= (a + pending(states[n - 1], s))
            + inputs[n - 1]);
        assert((p0 + j) + inputs[n - 1] =~= p0 + (j + inputs[n - 1]));
    }
}

/// Starting from a pipeline with no buffers and ending once `s` is no longer
/// tracked (it was removed, or never fed), every sample fed for `s` has been
/// handed out exactly once, in the order it was fed.
pub proof fn lemma_no_audio_lost(
    states: Seq<Map<u32, BufferState>>,
    inputs: Seq<Seq<i16>>,
    outs: Seq<Seq<Utterance>>,
    s: u32,
)
    requires
        states.len() == inputs.len() + 1,
        outs.len() == inputs.len(),
        states[0] == Map::<u32, BufferState>::empty(),
        !states.last().contains_key(s),
        forall|i: int|
            0 <= i < inputs.len() ==> conserves(
                #[trigger] states[i],
                states[i + 1],
                inputs[i],
                outs[i],
                s,
            ),
    ensures
        audio_handed_out(outs, s) == joined(inputs),
{
    lemma_run_conserves(states, inputs, outs, s);
    assert(audio_handed_out(outs, s) + Seq::<i16>::empty() =~= audio_handed_out(outs, s));
    assert(Seq::<i16>::empty() + joined(inputs) =~= joined(inputs));
}

/// The tracked SSRCs after a step: `Some((s, true))` starts tracking `s`
/// (audio fed or a user mapped for it), `Some((s, false))` stops tracking it
/// (removal), `None` changes nothing (draining).
pub open spec fn tracked_after(before: Set<u32>, op: Option<(u32, bool)>) -> Set<u32> {
    match op {
        Some((s, true)) => before.insert(s),
        Some((s, false)) => before.remove(s),
        None => before,
    }
}

/// The SSRCs tracked after a run of steps from a pipeline with no buffers.
pub open spec fn ssrcs_in_use(ops: Seq<Option<(u32, bool)>>) -> Set<u32>
    decreases ops.len(),
{
    if ops.len() == 0 {
        Set::empty()
    } else {
        tracked_after(ssrcs_in_use(ops.drop_last()), ops.last())
    }
}

/// `s` was started at step `i` and not stopped since.
pub open spec fn started_and_kept(ops: Seq<Option<(u32, bool)>>, s: u32, i: int) -> bool {
    &&& 0 <= i < ops.len()
    &&& ops[i] == Some((s, true))
    &&& forall|j: int| i < j < ops.len() ==> #[trigger] ops[j] != Some((s, false))
}

/// Feeding audio tracks the SSRC.
pub proof fn lemma_push_tracks(
    before: Map<u32, BufferState>,
    after: Map<u32, BufferState>,
    ssrc: u32,
    samples: Seq<i16>,
    now: u64,
    r: Option<Utterance>,
)
    requires
        push_outcome(before, after, ssrc, samples, now, r),
    ensures
        after.dom() == tracked_after(before.dom(), Some((ssrc, true))),
{
}

/// Mapping a user tracks the SSRC.
pub proof fn lemma_mapping_tracks(before: Map<u32, BufferState>, ssrc: u32, user_id: u64, now: u64)
    ensures
        after_mapping(before, ssrc, user_id, now).dom() == tracked_after(
            before.dom(),
            Some((ssrc, true)),
        ),
{
}

/// Draining keeps the tracked SSRCs.
pub proof fn lemma_drain_tracks(
    before: Map<u32, BufferState>,
    after: Map<u32, BufferState>,
    thr: u64,
    now: u64,
    r: Seq<Utterance>,
)
    requires
        drain_outcome(before, after, thr, now, r),
    ensures
        after.dom() == tracked_after(before.dom(), None),
{
}

/// Removal stops tracking the SSRC.
pub proof fn lemma_removal_tracks(
    before: Map<u32, BufferState>,
    after: Map<u32, BufferState>,
    ssrc: u32,
    r: Option<Utterance>,
)
    requires
        removal_outcome(before, after, ssrc, r),
    ensures
        after.dom() == tracked_after(before.dom(), Some((ssrc, false))),
{
}

/// An SSRC is tracked after a run exactly when it was fed or mapped at some
/// step and not removed since.
proof fn lemma_tracked_members(ops: Seq<Option<(u32, bool)>>, s: u32)
    ensures
        ssrcs_in_use(ops).contains(s) <==> exists|i: int| started_and_kept(ops, s, i),
    decreases ops.len(),
{
    let n = ops.len() as int;
    if n > 0 {
        let init = ops.drop_last();
        lemma_tracked_members(init, s);
        let o = ops[n - 1];
        assert(ops.last() == o);
        if o == Some((s, true)) {
            assert(started_and_kept(ops, s, n - 1));
        } else if o == Some((s, false)) {
            if exists|i: int| started_and_kept(ops, s, i) {
                let i = choose|i: int| started_and_kept(ops, s, i);
                assert(i < n - 1);
                assert(ops[n - 1] != Some((s, false)));
            }
        } else {
            assert(ssrcs_in_use(ops).contains(s) == ssrcs_in_use(init).contains(s));
            if exists|i: int| started_and_kept(init, s, i) {
                let i = choose|i: int| started_and_kept(init, s, i);
                assert forall|j: int| i < j < n implies #[trigger] ops[j] != Some((s, false)) by {
                    if j < n - 1 {
                        assert(ops[j] == init[j]);
                    }
                }
                assert(ops[i] == init[i]);
                assert(started_and_kept(ops, s, i));
            }
            if exists|i: int| started_and_kept(ops, s, i) {
                let i = choose|i: int| started_and_kept(ops, s, i);
                assert(i < n - 1);
                assert forall|j: int| i < j < init.len() implies #[trigger] init[j] != Some(
                    (s, false),
                ) by {
                    assert(init[j] == ops[j]);
                }
                assert(init[i] == ops[i]);
                assert(started_and_kept(init, s, i));
            }
        }
    }
}

/// Over a run of steps from a pipeline with no buffers, each changing the
/// tracked SSRCs as `ops` says, the pipeline tracks exactly the SSRCs fed or
/// mapped at some step and not removed since; `active_count` is their number.
pub proof fn lemma_run_tracks(states: Seq<Map<u32, BufferState>>, ops: Seq<Option<(u32, bool)>>)
    requires
        states.len() == ops.len() + 1,
        states[0] == Map::<u32, BufferState>::empty(),
        forall|i: int|
            0 <= i < ops.len() ==> #[trigger] states[i + 1].dom() == tracked_after(
                states[i].dom(),
                ops[i],
            ),
    ensures
        states.last().dom() == ssrcs_in_use(ops),
        states.last().len() == ssrcs_in_use(ops).len(),
        forall|s: u32|
            states.last().contains_key(s) <==> exists|i: int| started_and_kept(ops, s, i),
    decreases ops.len(),
{
    let n = ops.len() as int;
    if n == 0 {
        assert(states.last().dom() =~= Set::<u32>::empty());
    } else {
        let st = states.drop_last();
        let init = ops.drop_last();
        assert forall|i: int| 0 <= i < init.len() implies #[trigger] st[i + 1].dom()
            == tracked_after(st[i].dom(), init[i]) by {
            assert(st[i + 1] == states[i + 1] && st[i] == states[i] && init[i] == ops[i]);
        }
        lemma_run_tracks(st, init);
        assert(states[n].dom() == tracked_after(states[n - 1].dom(), ops[n - 1]));
        assert(states.last() == states[n] && st.last() == states[n - 1]);
    }
    assert forall|s: u32| states.last().contains_key(s) <==> exists|i: int|
        started_and_kept(ops, s, i) by {
        lemma_tracked_members(ops, s);
    }
}

/// Audio that has been quiet for the silence threshold is handed out by a
/// drain, whole and attributed to its speaker, and its buffer starts over.
pub proof fn lemma_quiet_audio_is_handed_out(
    before: Map<u32, BufferState>,
    after: Map<u32, BufferState>,
    thr: u64,
    now: u64,
    r: Seq<Utterance>,
    k: u32,
)
    requires
        drain_outcome(before, after, thr, now, r),
        before.contains_key(k),
        before[k].0.len() > 0,
        now >= before[k].1 + thr * 1000000,
    ensures
        exists|i: int|
            0 <= i < r.len() && r[i].ssrc == k && r[i].pcm@ == before[k].0 && r[i].user_id
                == before[k].2,
        after[k].0.len() == 0,
{
    assert(is_silent(before[k], now, thr));
    let i = choose|i: int| 0 <= i < r.len() && r[i].ssrc == k;
    assert(utterance_of(r[i], r[i].ssrc, before[r[i].ssrc]));
}

/// Audio fed at clock reading `t` (without reaching the cap) is handed out by
/// a drain at any reading at least the silence threshold later, together with
/// what was already buffered before it.
pub proof fn lemma_fed_audio_handed_out_after_silence(
    b0: Map<u32, BufferState>,
    b1: Map<u32, BufferState>,
    b2: Map<u32, BufferState>,
    ssrc: u32,
    samples: Seq<i16>,
    t: u64,
    r1: Option<Utterance>,
    thr: u64,
    now: u64,
    r2: Seq<Utterance>,
)
    requires
        push_outcome(b0, b1, ssrc, samples, t, r1),
        r1 is None,
        pending(b0, ssrc).len() + samples.len() > 0,
        drain_outcome(b1, b2, thr, now, r2),
        now >= t + thr * 1000000,
    ensures
        exists|i: int|
            0 <= i < r2.len() && r2[i].ssrc == ssrc && r2[i].pcm@ == pending(b0, ssrc) + samples,
{
    lemma_quiet_audio_is_handed_out(b1, b2, thr, now, r2, ssrc);
}

} // verus!
