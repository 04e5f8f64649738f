//! The engine's decisions: its voice configuration, what a fragment of the
//! text-fragment list becomes, how the host's action flags are answered, how
//! audio is cut and paced, and where word-boundary events fall in the audio.

use vstd::prelude::*;

use crate::sentence::{sentence_wf, sentences, split_chars, views, Sentence, SentenceView};
use crate::text::{utf16_lossy, utf16_to_chars_lossy};

verus! {

/// Bytes of 16-bit mono audio per millisecond at 24 kHz.
pub const BYTES_PER_MS: u32 = 48;

/// Bytes of audio per second.
pub const BYTES_PER_SEC: u32 = 48000;

/// Action flag: stop speaking.
pub const SPVES_ABORT: u32 = 1;

/// Action flag: skip ahead (not acted on).
pub const SPVES_SKIP: u32 = 2;

/// Action flag: the rate changed.
pub const SPVES_RATE: u32 = 4;

/// Action flag: the volume changed.
pub const SPVES_VOLUME: u32 = 8;

/// About 100 ms of audio per write, so that actions are polled that often.
pub const CHUNK_BYTES: usize = 4800;

/// Most audio kept written ahead of real-time playback, in nanoseconds.
pub const MAX_LEAD_NS: u64 = 250_000_000;

/// Longest single pacing sleep, in nanoseconds.
pub const MAX_PACE_SLEEP_NS: u64 = 50_000_000;

/// A write that blocked longer than this (nanoseconds) was held by the host.
pub const BLOCKED_WRITE_NS: u64 = 250_000_000;

/// The voice configuration of one engine instance, read from its voice
/// token: the Azure voice short name, the resource region and the key.
#[derive(Debug)]
pub struct AzureEngine {
    pub voice: String,
    pub region: String,
    pub key: String,
}

impl AzureEngine {
    /// A fresh engine: the default voice `en-US-ChristopherNeural`, with no
    /// region and no key yet.
    pub fn new() -> (e: Self)
        ensures
            e.voice@ == "en-US-ChristopherNeural"@,
            e.region@.len() == 0,
            e.key@.len() == 0,
    {
        AzureEngine {
            voice: String::from_str("en-US-ChristopherNeural"),
            region: String::new(),
            key: String::new(),
        }
    }

    /// Takes the values found on the voice token: each one present replaces
    /// the current setting, each one absent leaves it.
    pub fn apply_token_values(
        &mut self,
        voice: Option<String>,
        region: Option<String>,
        key: Option<String>,
    )
        ensures
            final(self).voice == (match voice {
                Some(v) => v,
                None => old(self).voice,
            }),
            final(self).region == (match region {
                Some(r) => r,
                None => old(self).region,
            }),
            final(self).key == (match key {
                Some(k) => k,
                None => old(self).key,
            }),
    {
        if let Some(v) = voice {
            self.voice = v;
        }
        if let Some(r) = region {
            self.region = r;
        }
        if let Some(k) = key {
            self.key = k;
        }
    }

    /// Whether a key is configured, as the log reports it: `<set>` or
    /// `<missing>`.
    pub fn key_status(&self) -> (s: &'static str)
        ensures
            self.key@.len() == 0 ==> s@ == "<missing>"@,
            self.key@.len() != 0 ==> s@ == "<set>"@,
    {
        if self.key.as_str().is_empty() {
            "<missing>"
        } else {
            "<set>"
        }
    }
}

/// The audio format the engine produces, as a `WAVEFORMATEX` describes it.
#[derive(Clone, Copy, Debug, PartialEq, Eq, Structural)]
pub struct WaveFormat {
    pub format_tag: u16,
    pub channels: u16,
    pub samples_per_sec: u32,
    pub avg_bytes_per_sec: u32,
    pub block_align: u16,
    pub bits_per_sample: u16,
    pub extra_size: u16,
}

/// 24 kHz, 16-bit, mono PCM (format tag 1), with no extra format bytes.
pub fn output_format() -> (f: WaveFormat)
    ensures
        f.format_tag == 1,
        f.channels == 1,
        f.samples_per_sec == crate::azure::SAMPLE_RATE,
        f.avg_bytes_per_sec == crate::azure::SAMPLE_RATE * 2,
        f.block_align == 2,
        f.bits_per_sample == 16,
        f.extra_size == 0,
        f.avg_bytes_per_sec == f.samples_per_sec * f.block_align,
        f.block_align * 8 == f.channels * f.bits_per_sample,
{
    WaveFormat {
        format_tag: 1,
        channels: 1,
        samples_per_sec: crate::azure::SAMPLE_RATE,
        avg_bytes_per_sec: crate::azure::SAMPLE_RATE * 2,
        block_align: 2,
        bits_per_sample: 16,
        extra_size: 0,
    }
}

/// What a fragment of the host's text-fragment list asks for.
#[derive(Clone, Copy, Debug, PartialEq, Eq, Structural)]
pub enum FragAction {
    Speak,
    Pronounce,
    SpellOut,
    Silence,
    Other,
}

/// A fragment the engine acts on: text to speak, with its offset in the
/// caller's text (UTF-16 units), or a silence in milliseconds.
#[derive(Debug)]
pub enum Frag {
    Text { utf16: Vec<u16>, src_offset: u32 },
    SilenceMs(u32),
}

/// Mathematical model of a [`Frag`].
pub enum FragView {
    Text { units: Seq<u16>, src_offset: u32 },
    SilenceMs(u32),
}

impl View for Frag {
    type V = FragView;

    open spec fn view(&self) -> FragView {
        match self {
            Frag::Text { utf16, src_offset } => FragView::Text { units: utf16@, src_offset: *src_offset },
            Frag::SilenceMs(ms) => FragView::SilenceMs(*ms),
        }
    }
}

/// The fragment the engine takes from one entry of the list: spoken text
/// when the action speaks and the text is not empty, a silence for a
/// silence action, and nothing otherwise.
pub fn make_frag(action: FragAction, utf16: Vec<u16>, src_offset: u32, silence_ms: u32) -> (f: Option<Frag>)
    ensures
        (action == FragAction::Speak || action == FragAction::Pronounce || action
            == FragAction::SpellOut) ==> (if utf16@.len() > 0 {
            f == Some(Frag::Text { utf16, src_offset })
        } else {
            f is None
        }),
        action == FragAction::Silence ==> f == Some(Frag::SilenceMs(silence_ms)),
        action == FragAction::Other ==> f is None,
{
    match action {
        FragAction::Speak | FragAction::Pronounce | FragAction::SpellOut => {
            if utf16.len() > 0 {
                Some(Frag::Text { utf16, src_offset })
            } else {
                None
            }
        },
        FragAction::Silence => Some(Frag::SilenceMs(silence_ms)),
        FragAction::Other => None,
    }
}

/// The sentences of a text fragment, decoded from UTF-16 with unpaired
/// surrogates replaced; `None` when the decoded text has more than
/// `u32::MAX` characters.
pub fn split_fragment(utf16: &[u16]) -> (r: Option<Vec<Sentence>>)
    ensures
        r is None <==> utf16_lossy(utf16@).len() > u32::MAX,
        r matches Some(v) ==> views(v@) == sentences(utf16_lossy(utf16@)),
        r matches Some(v) ==> forall|i: int| 0 <= i < v@.len() ==> sentence_wf(#[trigger] v@[i]@),
{
    let chars = utf16_to_chars_lossy(utf16);
    if chars.len() > 4294967295usize {
        return None;
    }
    Some(split_chars(chars.as_slice()))
}

/// How the engine answers the host's action flags before each sentence.
#[derive(Clone, Copy, Debug, PartialEq, Eq, Structural)]
pub struct ActionResponse {
    pub abort: bool,
    pub reread_rate: bool,
    pub reread_volume: bool,
}

/// Reads the action flags: stop on abort, re-read the rate and the volume
/// when their flags are set.
pub fn on_actions(actions: u32) -> (r: ActionResponse)
    ensures
        r.abort == (actions & SPVES_ABORT != 0),
        r.reread_rate == (actions & SPVES_RATE != 0),
        r.reread_volume == (actions & SPVES_VOLUME != 0),
{
    ActionResponse {
        abort: actions & SPVES_ABORT != 0,
        reread_rate: actions & SPVES_RATE != 0,
        reread_volume: actions & SPVES_VOLUME != 0,
    }
}

/// Whether the action flags ask to stop.
pub fn abort_requested(actions: u32) -> (b: bool)
    ensures
        b == (actions & SPVES_ABORT != 0),
{
    actions & SPVES_ABORT != 0
}

/// Bytes of silent audio for a silence of `ms` milliseconds, rounded down to
/// whole samples.
pub fn silence_len(ms: u32) -> (n: usize)
    requires
        ms * 48 <= u32::MAX,
    ensures
        n == ms * 48,
        n % 2 == 0,
{
    let x: usize = (ms * BYTES_PER_MS) as usize;
    let n = x & !1usize;
    assert(x & !1usize == x - x % 2) by (bit_vector);
    n
}

/// The `i`-th piece of audio of `len` bytes cut in pieces of `CHUNK_BYTES`.
pub open spec fn chunk_at(len: int, i: int) -> (int, int) {
    (i * 4800, if (i + 1) * 4800 < len { (i + 1) * 4800 } else { len })
}

/// Cuts `len` bytes of audio into consecutive pieces of `CHUNK_BYTES`, the
/// last one possibly shorter (the ranges that `chunks` walks).
pub fn chunk_ranges(len: usize) -> (r: Vec<(usize, usize)>)
    ensures
        r@.len() == (len + 4799) / 4800,
        forall|i: int| 0 <= i < r@.len() ==> (#[trigger] r@[i]).0 == chunk_at(len as int, i).0
            && r@[i].1 == chunk_at(len as int, i).1,
{
    let mut r: Vec<(usize, usize)> = Vec::new();
    let mut start: usize = 0;
    while start < len
        invariant
            start <= len,
            start < len ==> start == r@.len() * 4800,
            r@.len() * 4800 >= start,
            r@.len() > 0 ==> (r@.len() - 1) * 4800 < len,
            r@.len() > 0 ==> start == len || start == r@.len() * 4800,
            forall|i: int| 0 <= i < r@.len() ==> (#[trigger] r@[i]).0 == chunk_at(len as int, i).0
                && r@[i].1 == chunk_at(len as int, i).1,
        decreases len - start,
    {
        let end = if len - start > CHUNK_BYTES {
            start + CHUNK_BYTES
        } else {
            len
        };
        r.push((start, end));
        start = end;
    }
    let k = r.len();
    assert(k == (len + 4799) / 4800) by (nonlinear_arith)
        requires
            k * 4800 >= len,
            k > 0 ==> (k - 1) * 4800 < len,
            len == 0 ==> k == 0,
    ;
    r
}

/// The pacing decision (see [`pace`]).
pub open spec fn pace_spec(audio_pos_ns: u64, elapsed_ns: u64) -> Option<u64> {
    if audio_pos_ns <= elapsed_ns + MAX_LEAD_NS {
        None
    } else if audio_pos_ns - elapsed_ns - MAX_LEAD_NS < MAX_PACE_SLEEP_NS {
        Some((audio_pos_ns - elapsed_ns - MAX_LEAD_NS) as u64)
    } else {
        Some(MAX_PACE_SLEEP_NS)
    }
}

/// Pacing: with `audio_pos_ns` of audio written and `elapsed_ns` since the
/// first write, `None` means write now (at most `MAX_LEAD_NS` ahead) and
/// `Some(d)` means sleep `d` first, never more than `MAX_PACE_SLEEP_NS`.
pub fn pace(audio_pos_ns: u64, elapsed_ns: u64) -> (r: Option<u64>)
    ensures
        r == pace_spec(audio_pos_ns, elapsed_ns),
        audio_pos_ns <= elapsed_ns + MAX_LEAD_NS ==> r is None,
        audio_pos_ns > elapsed_ns + MAX_LEAD_NS ==> r == Some(
            if audio_pos_ns - elapsed_ns - MAX_LEAD_NS < MAX_PACE_SLEEP_NS {
                (audio_pos_ns - elapsed_ns - MAX_LEAD_NS) as u64
            } else {
                MAX_PACE_SLEEP_NS
            },
        ),
{
    if audio_pos_ns <= MAX_LEAD_NS || audio_pos_ns - MAX_LEAD_NS <= elapsed_ns {
        None
    } else {
        let ahead = audio_pos_ns - MAX_LEAD_NS - elapsed_ns;
        if ahead < MAX_PACE_SLEEP_NS {
            Some(ahead)
        } else {
            Some(MAX_PACE_SLEEP_NS)
        }
    }
}

/// Whether a write that blocked for `blocked_ns` was held by the host, so
/// that the pacing clock must shift by that time.
pub fn shifts_clock(blocked_ns: u64) -> (b: bool)
    ensures
        b == (blocked_ns > BLOCKED_WRITE_NS),
{
    blocked_ns > BLOCKED_WRITE_NS
}

/// A word-boundary event: the audio offset at which it fires, and the word's
/// length and offset in the caller's text (UTF-16 units).
#[derive(Clone, Copy, Debug, PartialEq, Eq, Structural)]
pub struct WordEvent {
    pub audio_offset: u64,
    pub utf16_len: u32,
    pub text_offset: u32,
}

/// The audio offset of a word: its share of the sentence's audio by
/// character position, after `base` bytes, rounded down to a whole sample.
pub open spec fn word_audio_offset(base: int, pcm_len: int, char_start: int, char_len: int) -> int {
    let sum = base + (pcm_len * char_start) / char_len;
    sum - sum % 2
}

/// The arithmetic of the events fits the machine: no product, sum or text
/// offset leaves its integer type.
pub open spec fn events_fit(s: SentenceView, src_offset: u32, base: u64, pcm_len: usize) -> bool {
    s.char_len > 0 ==> forall|i: int|
        0 <= i < s.words.len() ==> {
            &&& pcm_len * (#[trigger] s.words[i]).char_start <= usize::MAX
            &&& base + (pcm_len * s.words[i].char_start) / (s.char_len as int) <= u64::MAX
            &&& src_offset + s.words[i].utf16_offset <= u32::MAX
        }
}

/// Whether the event arithmetic fits the machine (see [`events_fit`]), so
/// that [`word_events`] may be called.
pub fn events_fit_check(sentence: &Sentence, src_offset: u32, base: u64, pcm_len: usize) -> (b: bool)
    ensures
        b == events_fit(sentence@, src_offset, base, pcm_len),
{
    if sentence.char_len == 0 {
        return true;
    }
    let n = sentence.words.len();
    let mut i: usize = 0;
    while i < n
        invariant
            n == sentence@.words.len(),
            sentence@.char_len > 0,
            i <= n,
            forall|k: int|
                0 <= k < i ==> {
                    &&& pcm_len * (#[trigger] sentence@.words[k]).char_start <= usize::MAX
                    &&& base + (pcm_len * sentence@.words[k].char_start) / (sentence@.char_len as int)
                        <= u64::MAX
                    &&& src_offset + sentence@.words[k].utf16_offset <= u32::MAX
                },
        decreases n - i,
    {
        let w = sentence.words[i];
        assert(sentence@.words[i as int] == w);
        let prod = match pcm_len.checked_mul(w.char_start) {
            Some(p) => p,
            None => return false,
        };
        let share = prod / sentence.char_len;
        if base.checked_add(share as u64).is_none() {
            return false;
        }
        if src_offset.checked_add(w.utf16_offset).is_none() {
            return false;
        }
        i = i + 1;
    }
    true
}

/// The word-boundary events of a sentence (see [`word_events`]).
pub open spec fn events_of(s: SentenceView, src_offset: u32, base: u64, pcm_len: usize) -> Seq<WordEvent> {
    if s.words.len() == 0 || s.char_len == 0 {
        Seq::empty()
    } else {
        Seq::new(
            s.words.len(),
            |i: int|
                WordEvent {
                    audio_offset: word_audio_offset(
                        base as int,
                        pcm_len as int,
                        s.words[i].char_start as int,
                        s.char_len as int,
                    ) as u64,
                    utf16_len: s.words[i].utf16_len,
                    text_offset: (src_offset + s.words[i].utf16_offset) as u32,
                },
        )
    }
}

/// The word-boundary events of a sentence whose audio (`pcm_len` bytes)
/// starts `base` bytes into the stream, for a fragment at `src_offset`.
/// Offsets are estimated in proportion to each word's character position.
pub fn word_events(sentence: &Sentence, src_offset: u32, base: u64, pcm_len: usize) -> (r: Vec<WordEvent>)
    requires
        events_fit(sentence@, src_offset, base, pcm_len),
    ensures
        r@ == events_of(sentence@, src_offset, base, pcm_len),
        sentence@.words.len() == 0 || sentence@.char_len == 0 ==> r@.len() == 0,
        sentence@.char_len > 0 ==> r@.len() == sentence@.words.len(),
        sentence@.char_len > 0 ==> forall|i: int|
            0 <= i < r@.len() ==> (#[trigger] r@[i]).audio_offset == word_audio_offset(
                base as int,
                pcm_len as int,
                sentence@.words[i].char_start as int,
                sentence@.char_len as int,
            ) && r@[i].utf16_len == sentence@.words[i].utf16_len && r@[i].text_offset
                == src_offset + sentence@.words[i].utf16_offset,
{
    let mut out: Vec<WordEvent> = Vec::new();
    if sentence.words.len() == 0 || sentence.char_len == 0 {
        return out;
    }
    let n = sentence.words.len();
    let mut i: usize = 0;
    while i < n
        invariant
            n == sentence@.words.len(),
            sentence@.char_len > 0,
            events_fit(sentence@, src_offset, base, pcm_len),
            i <= n,
            out@.len() == i,
            forall|k: int|
                0 <= k < i ==> (#[trigger] out@[k]).audio_offset == word_audio_offset(
                    base as int,
                    pcm_len as int,
                    sentence@.words[k].char_start as int,
                    sentence@.char_len as int,
                ) && out@[k].utf16_len == sentence@.words[k].utf16_len && out@[k].text_offset
                    == src_offset + sentence@.words[k].utf16_offset,
        decreases n - i,
    {
        let w = sentence.words[i];
        assert(sentence@.words[i as int] == w);
        let share = pcm_len * w.char_start / sentence.char_len;
        let sum: u64 = base + share as u64;
        let audio_offset = sum & !1u64;
        assert(sum & !1u64 == sum - sum % 2) by (bit_vector);
        out.push(WordEvent { audio_offset, utf16_len: w.utf16_len, text_offset: src_offset + w.utf16_offset });
        i = i + 1;
    }
    assert(out@ =~= events_of(sentence@, src_offset, base, pcm_len));
    out
}

proof fn lemma_share_bounds(pcm_len: int, char_start: int, char_len: int)
    requires
        0 <= pcm_len,
        0 <= char_start < char_len,
    ensures
        0 <= (pcm_len * char_start) / char_len <= pcm_len,
{
    vstd::arithmetic::mul::lemma_mul_inequality(char_start, char_len, pcm_len);
    vstd::arithmetic::mul::lemma_mul_inequality(0, char_start, pcm_len);
    vstd::arithmetic::mul::lemma_mul_is_commutative(char_start, pcm_len);
    vstd::arithmetic::mul::lemma_mul_is_commutative(char_len, pcm_len);
    vstd::arithmetic::div_mod::lemma_div_is_ordered(pcm_len * char_start, pcm_len * char_len, char_len);
    vstd::arithmetic::div_mod::lemma_div_is_ordered(0, pcm_len * char_start, char_len);
    vstd::arithmetic::div_mod::lemma_div_by_multiple(pcm_len, char_len);
}

proof fn lemma_share_ordered(pcm_len: int, a: int, b: int, char_len: int)
    requires
        0 <= pcm_len,
        0 <= a <= b,
        0 < char_len,
    ensures
        (pcm_len * a) / char_len <= (pcm_len * b) / char_len,
{
    vstd::arithmetic::mul::lemma_mul_inequality(a, b, pcm_len);
    vstd::arithmetic::mul::lemma_mul_is_commutative(a, pcm_len);
    vstd::arithmetic::mul::lemma_mul_is_commutative(b, pcm_len);
    vstd::arithmetic::div_mod::lemma_div_is_ordered(pcm_len * a, pcm_len * b, char_len);
}

/// Law: for a well-formed sentence, every word-boundary event falls on a
/// whole sample inside the sentence's audio (from `base` to
/// `base + pcm_len`, `base` itself on a sample), and the events come in
/// playback order.
pub proof fn law_word_events_in_audio(s: SentenceView, base: int, pcm_len: int)
    requires
        sentence_wf(s),
        s.char_len > 0,
        base >= 0,
        base % 2 == 0,
        pcm_len >= 0,
    ensures
        forall|i: int|
            0 <= i < s.words.len() ==> {
                let o = word_audio_offset(
                    base,
                    pcm_len,
                    (#[trigger] s.words[i]).char_start as int,
                    s.char_len as int,
                );
                &&& o % 2 == 0
                &&& base <= o <= base + pcm_len
            },
        forall|i: int, k: int|
            0 <= i < k < s.words.len() ==> word_audio_offset(
                base,
                pcm_len,
                (#[trigger] s.words[i]).char_start as int,
                s.char_len as int,
            ) <= word_audio_offset(
                base,
                pcm_len,
                (#[trigger] s.words[k]).char_start as int,
                s.char_len as int,
            ),
{
    assert forall|i: int| 0 <= i < s.words.len() implies {
        let o = word_audio_offset(
            base,
            pcm_len,
            (#[trigger] s.words[i]).char_start as int,
            s.char_len as int,
        );
        &&& o % 2 == 0
        &&& base <= o <= base + pcm_len
    } by {
        lemma_share_bounds(pcm_len, s.words[i].char_start as int, s.char_len as int);
    }
    assert forall|i: int, k: int| 0 <= i < k < s.words.len() implies word_audio_offset(
        base,
        pcm_len,
        (#[trigger] s.words[i]).char_start as int,
        s.char_len as int,
    ) <= word_audio_offset(
        base,
        pcm_len,
        (#[trigger] s.words[k]).char_start as int,
        s.char_len as int,
    ) by {
        lemma_share_ordered(
            pcm_len,
            s.words[i].char_start as int,
            s.words[k].char_start as int,
            s.char_len as int,
        );
    }
}

/// Law: the audio pieces cover all `len` bytes in order, without gap or
/// overlap; each is non-empty and at most `CHUNK_BYTES` long, and all but
/// the last are exactly that long.
pub proof fn law_chunks_partition(len: int)
    requires
        len >= 0,
    ensures
        ({
            let n = (len + 4799) / 4800;
            &&& len == 0 <==> n == 0
            &&& n > 0 ==> chunk_at(len, 0).0 == 0 && chunk_at(len, n - 1).1 == len
            &&& forall|i: int|
                0 <= i < n ==> (#[trigger] chunk_at(len, i)).0 < chunk_at(len, i).1 && chunk_at(
                    len,
                    i,
                ).1 - chunk_at(len, i).0 <= 4800
            &&& forall|i: int|
                0 <= i < n - 1 ==> (#[trigger] chunk_at(len, i)).1 == chunk_at(len, i + 1).0
                    && chunk_at(len, i).1 - chunk_at(len, i).0 == 4800
        }),
{
    let n = (len + 4799) / 4800;
    assert(n * 4800 >= len && (n > 0 ==> (n - 1) * 4800 < len) && (len == 0 <==> n == 0))
        by (nonlinear_arith)
        requires
            n == (len + 4799) / 4800,
            len >= 0,
    ;
    assert forall|i: int| 0 <= i < n implies (#[trigger] chunk_at(len, i)).0 < chunk_at(len, i).1
        && chunk_at(len, i).1 - chunk_at(len, i).0 <= 4800 by {
        assert(i * 4800 <= (n - 1) * 4800) by (nonlinear_arith)
            requires
                i <= n - 1,
        ;
    }
    assert forall|i: int| 0 <= i < n - 1 implies (#[trigger] chunk_at(len, i)).1 == chunk_at(
        len,
        i + 1,
    ).0 && chunk_at(len, i).1 - chunk_at(len, i).0 == 4800 by {
        assert((i + 1) * 4800 <= (n - 1) * 4800) by (nonlinear_arith)
            requires
                i + 1 <= n - 1,
        ;
    }
}

/// The events fit their integer types: each event's audio offset and text
/// offset are the exact values, not wrapped.
pub proof fn law_events_of_fit(s: SentenceView, src_offset: u32, base: u64, pcm_len: usize)
    requires
        events_fit(s, src_offset, base, pcm_len),
        s.words.len() > 0,
        s.char_len > 0,
    ensures
        events_of(s, src_offset, base, pcm_len).len() == s.words.len(),
        forall|i: int|
            0 <= i < s.words.len() ==> {
                let ev = #[trigger] events_of(s, src_offset, base, pcm_len)[i];
                &&& ev.utf16_len == s.words[i].utf16_len
                &&& ev.text_offset == src_offset + s.words[i].utf16_offset
                &&& ev.audio_offset == word_audio_offset(
                    base as int,
                    pcm_len as int,
                    s.words[i].char_start as int,
                    s.char_len as int,
                )
            },
{
    assert forall|i: int| 0 <= i < s.words.len() implies {
        let ev = #[trigger] events_of(s, src_offset, base, pcm_len)[i];
        &&& ev.utf16_len == s.words[i].utf16_len
        &&& ev.text_offset == src_offset + s.words[i].utf16_offset
        &&& ev.audio_offset == word_audio_offset(
            base as int,
            pcm_len as int,
            s.words[i].char_start as int,
            s.char_len as int,
        )
    } by {
        let w = s.words[i];
        assert(pcm_len * w.char_start <= usize::MAX);
        vstd::arithmetic::div_mod::lemma_div_is_ordered(0, pcm_len * w.char_start, s.char_len as int);
        assert(0 <= (pcm_len * w.char_start) / (s.char_len as int)) by (nonlinear_arith)
            requires
                pcm_len * w.char_start >= 0,
                s.char_len > 0,
        ;
    }
}

} // verus!
