//! The speaking loop as a state machine. The host's engine site does the
//! outside work (reading the action flags, rate and volume, synthesizing,
//! sleeping, writing audio, queueing events); [`speak_step`] takes the
//! current state and what that work returned, and gives the next state and
//! the next piece of work. Fragments and their sentences are taken in order;
//! each sentence is preceded by a look at the action flags, and its audio is
//! written in chunks, each paced against playback and preceded by another
//! look at the flags. An abort ends speaking at once.

use vstd::prelude::*;

use crate::engine::{
    events_fit, events_fit_check, events_of, pace, pace_spec, shifts_clock, silence_len,
    split_fragment, word_events, Frag, FragView, WordEvent, BLOCKED_WRITE_NS, BYTES_PER_MS,
    CHUNK_BYTES, SPVES_ABORT, SPVES_RATE, SPVES_VOLUME,
};
use crate::sentence::{sentences, views, Sentence, SentenceView};
use crate::text::utf16_lossy;

verus! {

/// Where the speaking loop stands.
#[derive(Clone, Copy, Debug, PartialEq, Eq, Structural)]
pub enum Phase {
    /// Nothing done yet.
    Start,
    /// Waiting for the rate; `reread` when a sentence's flags asked for it,
    /// `volume_too` when the volume is to be read next.
    ReadingRate { reread: bool, volume_too: bool },
    /// Waiting for the volume; `reread` when a sentence's flags asked for it.
    ReadingVolume { reread: bool },
    /// Waiting for the action flags before the next sentence.
    SentenceActions,
    /// Waiting for the next sentence's audio.
    Synthesizing,
    /// Waiting for the sentence's word events to be queued.
    EventsSent,
    /// Waiting for a silence buffer to be prepared.
    SilenceReady,
    /// Waiting for the flags and the clock before the next chunk.
    Pacing,
    /// Waiting for the action flags just before a write.
    PreWrite,
    /// Waiting for the outcome of a write.
    Writing,
    /// Waiting for the pacing clock to be shifted.
    Shifting,
    /// Speaking ended: all done, aborted or purged.
    Done,
    /// The host broke the protocol or a value overflowed.
    Failed,
}

/// The state of the speaking loop.
#[derive(Debug)]
pub struct SpeakState {
    pub phase: Phase,
    /// Index of the next fragment to take.
    pub next_frag: usize,
    /// Sentences of the current text fragment.
    pub sentences: Vec<Sentence>,
    /// Offset of the current text fragment in the caller's text.
    pub src_offset: u32,
    /// Index of the next sentence of the current fragment.
    pub sentence: usize,
    /// Audio bytes written so far.
    pub bytes_written: u64,
    pub rate_adj: i32,
    pub volume: u16,
    /// Length of the audio buffer being written.
    pub buffer_len: usize,
    /// Start of the next chunk of that buffer.
    pub chunk: usize,
    /// End of the chunk being written.
    pub pending_to: usize,
}

/// Mathematical model of a [`SpeakState`].
pub struct SpeakStateView {
    pub phase: Phase,
    pub next_frag: usize,
    pub sentences: Seq<SentenceView>,
    pub src_offset: u32,
    pub sentence: usize,
    pub bytes_written: u64,
    pub rate_adj: i32,
    pub volume: u16,
    pub buffer_len: usize,
    pub chunk: usize,
    pub pending_to: usize,
}

impl View for SpeakState {
    type V = SpeakStateView;

    open spec fn view(&self) -> SpeakStateView {
        SpeakStateView {
            phase: self.phase,
            next_frag: self.next_frag,
            sentences: views(self.sentences@),
            src_offset: self.src_offset,
            sentence: self.sentence,
            bytes_written: self.bytes_written,
            rate_adj: self.rate_adj,
            volume: self.volume,
            buffer_len: self.buffer_len,
            chunk: self.chunk,
            pending_to: self.pending_to,
        }
    }
}

/// What the outside work returned.
#[derive(Clone, Copy, Debug, PartialEq, Eq, Structural)]
pub enum SpeakEvent {
    /// Speaking starts.
    Begin,
    /// The rate, if the site gave one.
    Rate(Option<i32>),
    /// The volume, if the site gave one.
    Volume(Option<u16>),
    /// The action flags.
    Actions(u32),
    /// The sentence's audio is ready, `pcm_len` bytes.
    Audio { pcm_len: usize },
    /// The action flags, the audio position of what was written and the time
    /// since the first write, both in nanoseconds.
    Pacing { actions: u32, audio_pos_ns: u64, elapsed_ns: u64 },
    /// A write finished (`ok`) or was refused, after blocking `blocked_ns`.
    Written { ok: bool, blocked_ns: u64 },
    /// The last piece of work is done.
    Ack,
}

/// The next piece of outside work.
#[derive(Debug)]
pub enum SpeakAction {
    ReadRate,
    ReadVolume,
    ReadActions,
    /// Synthesize `text` at this rate and volume; answer with `Audio`.
    Synthesize { text: String, rate_adj: i32, volume: u16 },
    /// Queue these word-boundary events; answer with `Ack`.
    AddEvents(Vec<WordEvent>),
    /// Make a silent buffer of `len` bytes the one to write; answer `Ack`.
    StartSilence { len: usize },
    /// Report the flags and the clock for `bytes_written`; answer `Pacing`.
    PollPacing { bytes_written: u64 },
    /// Sleep `ns` nanoseconds, then answer `Pacing`.
    Sleep { ns: u64 },
    /// Write bytes `from..to` of the current buffer; answer `Written`.
    Write { from: usize, to: usize },
    /// Move the pacing clock on by `ns`; answer `Ack`.
    ShiftClock { ns: u64 },
    /// Speaking ended normally, on abort or on purge.
    Done,
    /// Speaking failed.
    Fail,
}

/// Mathematical model of a [`SpeakAction`].
pub enum SpeakActionView {
    ReadRate,
    ReadVolume,
    ReadActions,
    Synthesize { text: Seq<char>, rate_adj: i32, volume: u16 },
    AddEvents(Seq<WordEvent>),
    StartSilence { len: usize },
    PollPacing { bytes_written: u64 },
    Sleep { ns: u64 },
    Write { from: usize, to: usize },
    ShiftClock { ns: u64 },
    Done,
    Fail,
}

impl View for SpeakAction {
    type V = SpeakActionView;

    open spec fn view(&self) -> SpeakActionView {
        match self {
            SpeakAction::ReadRate => SpeakActionView::ReadRate,
            SpeakAction::ReadVolume => SpeakActionView::ReadVolume,
            SpeakAction::ReadActions => SpeakActionView::ReadActions,
            SpeakAction::Synthesize { text, rate_adj, volume } => SpeakActionView::Synthesize {
                text: text@,
                rate_adj: *rate_adj,
                volume: *volume,
            },
            SpeakAction::AddEvents(v) => SpeakActionView::AddEvents(v@),
            SpeakAction::StartSilence { len } => SpeakActionView::StartSilence { len: *len },
            SpeakAction::PollPacing { bytes_written } => SpeakActionView::PollPacing {
                bytes_written: *bytes_written,
            },
            SpeakAction::Sleep { ns } => SpeakActionView::Sleep { ns: *ns },
            SpeakAction::Write { from, to } => SpeakActionView::Write { from: *from, to: *to },
            SpeakAction::ShiftClock { ns } => SpeakActionView::ShiftClock { ns: *ns },
            SpeakAction::Done => SpeakActionView::Done,
            SpeakAction::Fail => SpeakActionView::Fail,
        }
    }
}

/// The models of a list of fragments.
pub open spec fn frag_views(v: Seq<Frag>) -> Seq<FragView> {
    v.map_values(|f: Frag| f@)
}

/// The state before speaking: rate 0 and volume 100 until the site says
/// otherwise, nothing written.
pub open spec fn initial_view() -> SpeakStateView {
    SpeakStateView {
        phase: Phase::Start,
        next_frag: 0,
        sentences: Seq::empty(),
        src_offset: 0,
        sentence: 0,
        bytes_written: 0,
        rate_adj: 0,
        volume: 100,
        buffer_len: 0,
        chunk: 0,
        pending_to: 0,
    }
}

/// `s` with a new phase.
pub open spec fn with_phase(s: SpeakStateView, phase: Phase) -> SpeakStateView {
    SpeakStateView { phase, ..s }
}

/// Ends speaking in failure.
pub open spec fn fail_view(s: SpeakStateView) -> (SpeakStateView, SpeakActionView) {
    (with_phase(s, Phase::Failed), SpeakActionView::Fail)
}

/// Moves on to the next sentence, or else to the next fragment: a silence
/// becomes a silent buffer of 48 bytes per millisecond, a text is split into
/// sentences (and skipped when it has none); after the last fragment
/// speaking is done.
pub open spec fn advance(frags: Seq<FragView>, s: SpeakStateView) -> (SpeakStateView, SpeakActionView)
    decreases frags.len() - s.next_frag,
{
    if s.sentence < s.sentences.len() {
        (with_phase(s, Phase::SentenceActions), SpeakActionView::ReadActions)
    } else if s.next_frag >= frags.len() {
        (with_phase(s, Phase::Done), SpeakActionView::Done)
    } else if s.next_frag >= usize::MAX {
        fail_view(s)
    } else {
        match frags[s.next_frag as int] {
            FragView::SilenceMs(ms) => {
                if ms * 48 > u32::MAX {
                    fail_view(s)
                } else {
                    (
                        SpeakStateView {
                            phase: Phase::SilenceReady,
                            next_frag: (s.next_frag + 1) as usize,
                            buffer_len: (ms * 48) as usize,
                            chunk: 0,
                            ..s
                        },
                        SpeakActionView::StartSilence { len: (ms * 48) as usize },
                    )
                }
            },
            FragView::Text { units, src_offset } => {
                let d = utf16_lossy(units);
                if d.len() > u32::MAX {
                    fail_view(s)
                } else {
                    advance(
                        frags,
                        SpeakStateView {
                            next_frag: (s.next_frag + 1) as usize,
                            sentences: sentences(d),
                            sentence: 0,
                            src_offset,
                            ..s
                        },
                    )
                }
            },
        }
    }
}

/// Continues writing the current buffer, or moves on once it is written.
pub open spec fn next_chunk(frags: Seq<FragView>, s: SpeakStateView) -> (SpeakStateView, SpeakActionView) {
    if s.chunk < s.buffer_len {
        (with_phase(s, Phase::Pacing), SpeakActionView::PollPacing { bytes_written: s.bytes_written })
    } else {
        advance(frags, s)
    }
}

/// Asks for the current sentence's audio.
pub open spec fn synthesize_view(s: SpeakStateView) -> (SpeakStateView, SpeakActionView) {
    if s.sentence >= s.sentences.len() {
        fail_view(s)
    } else {
        (
            with_phase(s, Phase::Synthesizing),
            SpeakActionView::Synthesize {
                text: s.sentences[s.sentence as int].text,
                rate_adj: s.rate_adj,
                volume: s.volume,
            },
        )
    }
}

/// Whether the action flags ask to stop.
pub open spec fn aborts(actions: u32) -> bool {
    actions & SPVES_ABORT != 0
}

/// One step of the speaking loop: the next state and the next piece of work
/// for state `s` after event `e`. An event that the phase does not wait for
/// fails; `Done` and `Failed` stay as they are.
pub open spec fn step(frags: Seq<FragView>, s: SpeakStateView, e: SpeakEvent) -> (SpeakStateView, SpeakActionView) {
    match s.phase {
        Phase::Done => (s, SpeakActionView::Done),
        Phase::Failed => (s, SpeakActionView::Fail),
        Phase::Start => match e {
            SpeakEvent::Begin => (
                with_phase(s, Phase::ReadingRate { reread: false, volume_too: true }),
                SpeakActionView::ReadRate,
            ),
            _ => fail_view(s),
        },
        Phase::ReadingRate { reread, volume_too } => match e {
            SpeakEvent::Rate(r) => {
                let s1 = SpeakStateView {
                    rate_adj: match r {
                        Some(v) => v,
                        None => s.rate_adj,
                    },
                    ..s
                };
                if !reread || volume_too {
                    (
                        with_phase(s1, Phase::ReadingVolume { reread }),
                        SpeakActionView::ReadVolume,
                    )
                } else {
                    synthesize_view(s1)
                }
            },
            _ => fail_view(s),
        },
        Phase::ReadingVolume { reread } => match e {
            SpeakEvent::Volume(v) => {
                let s1 = SpeakStateView {
                    volume: match v {
                        Some(x) => x,
                        None => s.volume,
                    },
                    ..s
                };
                if reread {
                    synthesize_view(s1)
                } else {
                    advance(frags, s1)
                }
            },
            _ => fail_view(s),
        },
        Phase::SentenceActions => match e {
            SpeakEvent::Actions(a) => {
                if aborts(a) {
                    (with_phase(s, Phase::Done), SpeakActionView::Done)
                } else if a & SPVES_RATE != 0 {
                    (
                        with_phase(
                            s,
                            Phase::ReadingRate { reread: true, volume_too: a & SPVES_VOLUME != 0 },
                        ),
                        SpeakActionView::ReadRate,
                    )
                } else if a & SPVES_VOLUME != 0 {
                    (with_phase(s, Phase::ReadingVolume { reread: true }), SpeakActionView::ReadVolume)
                } else {
                    synthesize_view(s)
                }
            },
            _ => fail_view(s),
        },
        Phase::Synthesizing => match e {
            SpeakEvent::Audio { pcm_len } => {
                if s.sentence >= s.sentences.len() {
                    fail_view(s)
                } else {
                    let sen = s.sentences[s.sentence as int];
                    if !events_fit(sen, s.src_offset, s.bytes_written, pcm_len) {
                        fail_view(s)
                    } else {
                        let ev = events_of(sen, s.src_offset, s.bytes_written, pcm_len);
                        let s1 = SpeakStateView {
                            sentence: (s.sentence + 1) as usize,
                            buffer_len: pcm_len,
                            chunk: 0,
                            ..s
                        };
                        if ev.len() > 0 {
                            (with_phase(s1, Phase::EventsSent), SpeakActionView::AddEvents(ev))
                        } else {
                            next_chunk(frags, s1)
                        }
                    }
                }
            },
            _ => fail_view(s),
        },
        Phase::EventsSent | Phase::SilenceReady | Phase::Shifting => match e {
            SpeakEvent::Ack => next_chunk(frags, s),
            _ => fail_view(s),
        },
        Phase::Pacing => match e {
            SpeakEvent::Pacing { actions, audio_pos_ns, elapsed_ns } => {
                if aborts(actions) {
                    (with_phase(s, Phase::Done), SpeakActionView::Done)
                } else {
                    match pace_spec(audio_pos_ns, elapsed_ns) {
                        None => (with_phase(s, Phase::PreWrite), SpeakActionView::ReadActions),
                        Some(ns) => (with_phase(s, Phase::Pacing), SpeakActionView::Sleep { ns }),
                    }
                }
            },
            _ => fail_view(s),
        },
        Phase::PreWrite => match e {
            SpeakEvent::Actions(a) => {
                if aborts(a) {
                    (with_phase(s, Phase::Done), SpeakActionView::Done)
                } else if s.chunk >= s.buffer_len {
                    fail_view(s)
                } else {
                    let to = if s.buffer_len - s.chunk > 4800 {
                        (s.chunk + 4800) as usize
                    } else {
                        s.buffer_len
                    };
                    (
                        SpeakStateView { phase: Phase::Writing, pending_to: to, ..s },
                        SpeakActionView::Write { from: s.chunk, to },
                    )
                }
            },
            _ => fail_view(s),
        },
        Phase::Writing => match e {
            SpeakEvent::Written { ok, blocked_ns } => {
                if !ok {
                    (with_phase(s, Phase::Done), SpeakActionView::Done)
                } else if s.pending_to < s.chunk || s.pending_to > s.buffer_len || s.bytes_written
                    + (s.pending_to - s.chunk) > u64::MAX {
                    fail_view(s)
                } else {
                    let s1 = SpeakStateView {
                        bytes_written: (s.bytes_written + (s.pending_to - s.chunk)) as u64,
                        chunk: s.pending_to,
                        ..s
                    };
                    if blocked_ns > BLOCKED_WRITE_NS {
                        (with_phase(s1, Phase::Shifting), SpeakActionView::ShiftClock { ns: blocked_ns })
                    } else {
                        next_chunk(frags, s1)
                    }
                }
            },
            _ => fail_view(s),
        },
    }
}

/// The state before speaking (see [`initial_view`]).
pub fn speak_start() -> (s: SpeakState)
    ensures
        s@ == initial_view(),
{
    let s = SpeakState {
        phase: Phase::Start,
        next_frag: 0,
        sentences: Vec::new(),
        src_offset: 0,
        sentence: 0,
        bytes_written: 0,
        rate_adj: 0,
        volume: 100,
        buffer_len: 0,
        chunk: 0,
        pending_to: 0,
    };
    assert(s@.sentences =~= Seq::<SentenceView>::empty());
    s
}

fn fail(s: SpeakState) -> (r: (SpeakState, SpeakAction))
    ensures
        (r.0@, r.1@) == fail_view(s@),
{
    (SpeakState { phase: Phase::Failed, ..s }, SpeakAction::Fail)
}

fn advance_exec(frags: &Vec<Frag>, s: SpeakState) -> (r: (SpeakState, SpeakAction))
    ensures
        (r.0@, r.1@) == advance(frag_views(frags@), s@),
    decreases frags@.len() - s.next_frag,
{
    if s.sentence < s.sentences.len() {
        return (SpeakState { phase: Phase::SentenceActions, ..s }, SpeakAction::ReadActions);
    }
    if s.next_frag >= frags.len() {
        return (SpeakState { phase: Phase::Done, ..s }, SpeakAction::Done);
    }
    let ghost fv = frag_views(frags@);
    assert(fv[s.next_frag as int] == frags@[s.next_frag as int]@);
    match &frags[s.next_frag] {
        Frag::SilenceMs(ms) => {
            let ms = *ms;
            if ms > u32::MAX / BYTES_PER_MS {
                return fail(s);
            }
            let len = silence_len(ms);
            (
                SpeakState {
                    phase: Phase::SilenceReady,
                    next_frag: s.next_frag + 1,
                    buffer_len: len,
                    chunk: 0,
                    ..s
                },
                SpeakAction::StartSilence { len },
            )
        },
        Frag::Text { utf16, src_offset } => {
            match split_fragment(utf16.as_slice()) {
                None => fail(s),
                Some(v) => {
                    let s1 = SpeakState {
                        next_frag: s.next_frag + 1,
                        sentences: v,
                        sentence: 0,
                        src_offset: *src_offset,
                        ..s
                    };
                    advance_exec(frags, s1)
                },
            }
        },
    }
}

fn next_chunk_exec(frags: &Vec<Frag>, s: SpeakState) -> (r: (SpeakState, SpeakAction))
    ensures
        (r.0@, r.1@) == next_chunk(frag_views(frags@), s@),
{
    if s.chunk < s.buffer_len {
        let b = s.bytes_written;
        (SpeakState { phase: Phase::Pacing, ..s }, SpeakAction::PollPacing { bytes_written: b })
    } else {
        advance_exec(frags, s)
    }
}

fn synthesize_exec(s: SpeakState) -> (r: (SpeakState, SpeakAction))
    ensures
        (r.0@, r.1@) == synthesize_view(s@),
{
    if s.sentence >= s.sentences.len() {
        return fail(s);
    }
    let text = s.sentences[s.sentence].text.clone();
    let rate_adj = s.rate_adj;
    let volume = s.volume;
    (SpeakState { phase: Phase::Synthesizing, ..s }, SpeakAction::Synthesize { text, rate_adj, volume })
}

/// One step of the speaking loop (see [`step`]).
pub fn speak_step(frags: &Vec<Frag>, s: SpeakState, e: SpeakEvent) -> (r: (SpeakState, SpeakAction))
    ensures
        (r.0@, r.1@) == step(frag_views(frags@), s@, e),
{
    match s.phase {
        Phase::Done => (s, SpeakAction::Done),
        Phase::Failed => (s, SpeakAction::Fail),
        Phase::Start => match e {
            SpeakEvent::Begin => (
                SpeakState { phase: Phase::ReadingRate { reread: false, volume_too: true }, ..s },
                SpeakAction::ReadRate,
            ),
            _ => fail(s),
        },
        Phase::ReadingRate { reread, volume_too } => match e {
            SpeakEvent::Rate(r) => {
                let rate_adj = match r {
                    Some(v) => v,
                    None => s.rate_adj,
                };
                let s1 = SpeakState { rate_adj, ..s };
                if !reread || volume_too {
                    (SpeakState { phase: Phase::ReadingVolume { reread }, ..s1 }, SpeakAction::ReadVolume)
                } else {
                    synthesize_exec(s1)
                }
            },
            _ => fail(s),
        },
        Phase::ReadingVolume { reread } => match e {
            SpeakEvent::Volume(v) => {
                let volume = match v {
                    Some(x) => x,
                    None => s.volume,
                };
                let s1 = SpeakState { volume, ..s };
                if reread {
                    synthesize_exec(s1)
                } else {
                    advance_exec(frags, s1)
                }
            },
            _ => fail(s),
        },
        Phase::SentenceActions => match e {
            SpeakEvent::Actions(a) => {
                if a & SPVES_ABORT != 0 {
                    (SpeakState { phase: Phase::Done, ..s }, SpeakAction::Done)
                } else if a & SPVES_RATE != 0 {
                    (
                        SpeakState {
                            phase: Phase::ReadingRate { reread: true, volume_too: a & SPVES_VOLUME != 0 },
                            ..s
                        },
                        SpeakAction::ReadRate,
                    )
                } else if a & SPVES_VOLUME != 0 {
                    (SpeakState { phase: Phase::ReadingVolume { reread: true }, ..s }, SpeakAction::ReadVolume)
                } else {
                    synthesize_exec(s)
                }
            },
            _ => fail(s),
        },
        Phase::Synthesizing => match e {
            SpeakEvent::Audio { pcm_len } => {
                if s.sentence >= s.sentences.len() {
                    return fail(s);
                }
                assert(s@.sentences[s.sentence as int] == s.sentences@[s.sentence as int]@);
                if !events_fit_check(&s.sentences[s.sentence], s.src_offset, s.bytes_written, pcm_len) {
                    return fail(s);
                }
                let ev = word_events(&s.sentences[s.sentence], s.src_offset, s.bytes_written, pcm_len);
                let s1 = SpeakState { sentence: s.sentence + 1, buffer_len: pcm_len, chunk: 0, ..s };
                if ev.len() > 0 {
                    (SpeakState { phase: Phase::EventsSent, ..s1 }, SpeakAction::AddEvents(ev))
                } else {
                    next_chunk_exec(frags, s1)
                }
            },
            _ => fail(s),
        },
        Phase::EventsSent | Phase::SilenceReady | Phase::Shifting => match e {
            SpeakEvent::Ack => next_chunk_exec(frags, s),
            _ => fail(s),
        },
        Phase::Pacing => match e {
            SpeakEvent::Pacing { actions, audio_pos_ns, elapsed_ns } => {
                if actions & SPVES_ABORT != 0 {
                    (SpeakState { phase: Phase::Done, ..s }, SpeakAction::Done)
                } else {
                    match pace(audio_pos_ns, elapsed_ns) {
                        None => (SpeakState { phase: Phase::PreWrite, ..s }, SpeakAction::ReadActions),
                        Some(ns) => (SpeakState { phase: Phase::Pacing, ..s }, SpeakAction::Sleep { ns }),
                    }
                }
            },
            _ => fail(s),
        },
        Phase::PreWrite => match e {
            SpeakEvent::Actions(a) => {
                if a & SPVES_ABORT != 0 {
                    (SpeakState { phase: Phase::Done, ..s }, SpeakAction::Done)
                } else if s.chunk >= s.buffer_len {
                    fail(s)
                } else {
                    let from = s.chunk;
                    let to = if s.buffer_len - s.chunk > CHUNK_BYTES {
                        s.chunk + CHUNK_BYTES
                    } else {
                        s.buffer_len
                    };
                    (SpeakState { phase: Phase::Writing, pending_to: to, ..s }, SpeakAction::Write { from, to })
                }
            },
            _ => fail(s),
        },
        Phase::Writing => match e {
            SpeakEvent::Written { ok, blocked_ns } => {
                if !ok {
                    return (SpeakState { phase: Phase::Done, ..s }, SpeakAction::Done);
                }
                if s.pending_to < s.chunk || s.pending_to > s.buffer_len {
                    return fail(s);
                }
                let len = (s.pending_to - s.chunk) as u64;
                if s.bytes_written > u64::MAX - len {
                    return fail(s);
                }
                let s1 = SpeakState { bytes_written: s.bytes_written + len, chunk: s.pending_to, ..s };
                if shifts_clock(blocked_ns) {
                    (SpeakState { phase: Phase::Shifting, ..s1 }, SpeakAction::ShiftClock { ns: blocked_ns })
                } else {
                    next_chunk_exec(frags, s1)
                }
            },
            _ => fail(s),
        },
    }
}

/// Whether a phase has ended speaking.
pub open spec fn is_final(p: Phase) -> bool {
    p == Phase::Done || p == Phase::Failed
}

/// Whether an event reports action flags that ask to stop.
pub open spec fn carries_abort(e: SpeakEvent) -> bool {
    match e {
        SpeakEvent::Actions(a) => aborts(a),
        SpeakEvent::Pacing { actions, .. } => aborts(actions),
        _ => false,
    }
}

/// Whether an event reports a write that succeeded.
pub open spec fn write_succeeded(e: SpeakEvent) -> bool {
    match e {
        SpeakEvent::Written { ok, .. } => ok,
        _ => false,
    }
}

proof fn lemma_advance(frags: Seq<FragView>, s: SpeakStateView)
    ensures
        ({
            let r = advance(frags, s);
            &&& r.0.bytes_written == s.bytes_written
            &&& r.0.rate_adj == s.rate_adj
            &&& r.0.volume == s.volume
            &&& r.0.next_frag >= s.next_frag
            &&& !(r.1 is Write) && !(r.1 is AddEvents) && !(r.1 is Synthesize)
            &&& r.1 is StartSilence ==> 1 <= r.0.next_frag <= frags.len() && (frags[r.0.next_frag
                - 1] matches FragView::SilenceMs(ms) && r.1->StartSilence_len == ms * 48)
                && r.0.buffer_len == r.1->StartSilence_len && r.0.chunk == 0
        }),
    decreases frags.len() - s.next_frag,
{
    if s.sentence < s.sentences.len() {
    } else if s.next_frag >= frags.len() {
    } else if s.next_frag >= usize::MAX {
    } else {
        match frags[s.next_frag as int] {
            FragView::SilenceMs(ms) => {},
            FragView::Text { units, src_offset } => {
                let d = utf16_lossy(units);
                if d.len() <= u32::MAX {
                    lemma_advance(
                        frags,
                        SpeakStateView {
                            next_frag: (s.next_frag + 1) as usize,
                            sentences: sentences(d),
                            sentence: 0,
                            src_offset,
                            ..s
                        },
                    );
                }
            },
        }
    }
}

/// Law: once speaking has ended it stays ended, and no further work is
/// asked for.
pub proof fn law_end_is_final(frags: Seq<FragView>, s: SpeakStateView, e: SpeakEvent)
    requires
        is_final(s.phase),
    ensures
        step(frags, s, e).0 == s,
        step(frags, s, e).1 is Done || step(frags, s, e).1 is Fail,
{
}

/// Law: an abort ends speaking at once. Whatever the phase, action flags
/// with the abort bit lead to no further work (no request, event or write);
/// in the phases that wait for the flags, speaking ends normally.
pub proof fn law_abort_stops(frags: Seq<FragView>, s: SpeakStateView, e: SpeakEvent)
    requires
        carries_abort(e),
    ensures
        is_final(step(frags, s, e).0.phase),
        step(frags, s, e).1 is Done || step(frags, s, e).1 is Fail,
        (s.phase == Phase::SentenceActions || s.phase == Phase::PreWrite) && e is Actions
            ==> step(frags, s, e).1 is Done,
        s.phase == Phase::Pacing && e is Pacing ==> step(frags, s, e).1 is Done,
{
}

/// Law: the count of written bytes grows only by a write that succeeded
/// (of a chunk inside the buffer, with no overflow), and then by exactly the
/// length of the chunk written.
pub proof fn law_written_bytes(frags: Seq<FragView>, s: SpeakStateView, e: SpeakEvent)
    ensures
        ({
            let r = step(frags, s, e);
            if s.phase == Phase::Writing && write_succeeded(e) && s.chunk <= s.pending_to
                <= s.buffer_len && s.bytes_written + (s.pending_to - s.chunk) <= u64::MAX {
                r.0.bytes_written == s.bytes_written + (s.pending_to - s.chunk)
            } else {
                r.0.bytes_written == s.bytes_written
            }
        }),
{
    lemma_advance(frags, s);
    match s.phase {
        Phase::ReadingVolume { reread } => {
            if let SpeakEvent::Volume(v) = e {
                lemma_advance(frags, SpeakStateView { volume: match v { Some(x) => x, None => s.volume }, ..s });
            }
        },
        Phase::Synthesizing => {
            if let SpeakEvent::Audio { pcm_len } = e {
                lemma_advance(
                    frags,
                    SpeakStateView { sentence: (s.sentence + 1) as usize, buffer_len: pcm_len, chunk: 0, ..s },
                );
            }
        },
        Phase::Writing => {
            if s.pending_to >= s.chunk && s.pending_to <= s.buffer_len && s.bytes_written + (
            s.pending_to - s.chunk) <= u64::MAX {
                lemma_advance(
                    frags,
                    SpeakStateView {
                        bytes_written: (s.bytes_written + (s.pending_to - s.chunk)) as u64,
                        chunk: s.pending_to,
                        ..s
                    },
                );
            }
        },
        _ => {},
    }
}

/// Law: where work comes from. Audio is written only after the flags were
/// read in the pre-write phase; a silence asks for 48 bytes per millisecond
/// of the fragment just taken; word events are those of the sentence whose
/// audio just arrived, placed after the bytes written so far; a sentence is
/// synthesized only from the current fragment's sentences.
pub proof fn law_work_sources(frags: Seq<FragView>, s: SpeakStateView, e: SpeakEvent)
    ensures
        ({
            let r = step(frags, s, e);
            &&& r.1 is Write ==> s.phase == Phase::PreWrite && e is Actions
            &&& r.1 matches SpeakActionView::Write { from, to } ==> from == r.0.chunk && to
                == r.0.pending_to && from < to <= r.0.buffer_len && to - from <= 4800
            &&& r.1 matches SpeakActionView::StartSilence { len } ==> 1 <= r.0.next_frag
                <= frags.len() && (frags[r.0.next_frag - 1] matches FragView::SilenceMs(ms) && len
                == ms * 48)
            &&& r.1 matches SpeakActionView::AddEvents(ev) ==> s.phase == Phase::Synthesizing && (
            e matches SpeakEvent::Audio { pcm_len } && s.sentence < s.sentences.len() && ev
                == events_of(s.sentences[s.sentence as int], s.src_offset, s.bytes_written, pcm_len))
            &&& r.1 matches SpeakActionView::Synthesize { text, .. } ==> r.0.sentence
                < r.0.sentences.len() && text == r.0.sentences[r.0.sentence as int].text
        }),
{
    lemma_advance(frags, s);
    match s.phase {
        Phase::ReadingVolume { reread } => {
            if let SpeakEvent::Volume(v) = e {
                lemma_advance(frags, SpeakStateView { volume: match v { Some(x) => x, None => s.volume }, ..s });
            }
        },
        Phase::Synthesizing => {
            if let SpeakEvent::Audio { pcm_len } = e {
                lemma_advance(
                    frags,
                    SpeakStateView { sentence: (s.sentence + 1) as usize, buffer_len: pcm_len, chunk: 0, ..s },
                );
            }
        },
        Phase::Writing => {
            if s.pending_to >= s.chunk && s.pending_to <= s.buffer_len && s.bytes_written + (
            s.pending_to - s.chunk) <= u64::MAX {
                lemma_advance(
                    frags,
                    SpeakStateView {
                        bytes_written: (s.bytes_written + (s.pending_to - s.chunk)) as u64,
                        chunk: s.pending_to,
                        ..s
                    },
                );
            }
        },
        _ => {},
    }
}

/// Whether the phase waits for the rate.
pub open spec fn waits_for_rate(p: Phase) -> bool {
    p matches Phase::ReadingRate { .. }
}

/// Whether the phase waits for the volume.
pub open spec fn waits_for_volume(p: Phase) -> bool {
    p matches Phase::ReadingVolume { .. }
}

/// Law: a rate the site reports takes effect at once. Whenever the loop
/// waits for the rate (at the start, or because a sentence's flags asked
/// for it, with or without a volume read to follow), a reported rate `v`
/// becomes the current rate and a missing one keeps the old; the volume is
/// untouched.
pub proof fn law_rate_read_takes_effect(frags: Seq<FragView>, s: SpeakStateView, x: Option<i32>)
    requires
        waits_for_rate(s.phase),
    ensures
        step(frags, s, SpeakEvent::Rate(x)).0.rate_adj == (match x {
            Some(v) => v,
            None => s.rate_adj,
        }),
        step(frags, s, SpeakEvent::Rate(x)).0.volume == s.volume,
{
    let e = SpeakEvent::Rate(x);
    lemma_advance(frags, s);
    match s.phase {
        Phase::ReadingVolume { reread } => {
            if let SpeakEvent::Volume(v) = e {
                lemma_advance(frags, SpeakStateView { volume: match v { Some(x) => x, None => s.volume }, ..s });
            }
        },
        Phase::Synthesizing => {
            if let SpeakEvent::Audio { pcm_len } = e {
                lemma_advance(
                    frags,
                    SpeakStateView { sentence: (s.sentence + 1) as usize, buffer_len: pcm_len, chunk: 0, ..s },
                );
            }
        },
        Phase::Writing => {
            if s.pending_to >= s.chunk && s.pending_to <= s.buffer_len && s.bytes_written + (
            s.pending_to - s.chunk) <= u64::MAX {
                lemma_advance(
                    frags,
                    SpeakStateView {
                        bytes_written: (s.bytes_written + (s.pending_to - s.chunk)) as u64,
                        chunk: s.pending_to,
                        ..s
                    },
                );
            }
        },
        _ => {},
    }
}

/// Law: a volume the site reports takes effect at once, the same way; the
/// rate is untouched.
pub proof fn law_volume_read_takes_effect(frags: Seq<FragView>, s: SpeakStateView, x: Option<u16>)
    requires
        waits_for_volume(s.phase),
    ensures
        step(frags, s, SpeakEvent::Volume(x)).0.volume == (match x {
            Some(v) => v,
            None => s.volume,
        }),
        step(frags, s, SpeakEvent::Volume(x)).0.rate_adj == s.rate_adj,
{
    let e = SpeakEvent::Volume(x);
    lemma_advance(frags, s);
    match s.phase {
        Phase::ReadingVolume { reread } => {
            if let SpeakEvent::Volume(v) = e {
                lemma_advance(frags, SpeakStateView { volume: match v { Some(x) => x, None => s.volume }, ..s });
            }
        },
        Phase::Synthesizing => {
            if let SpeakEvent::Audio { pcm_len } = e {
                lemma_advance(
                    frags,
                    SpeakStateView { sentence: (s.sentence + 1) as usize, buffer_len: pcm_len, chunk: 0, ..s },
                );
            }
        },
        Phase::Writing => {
            if s.pending_to >= s.chunk && s.pending_to <= s.buffer_len && s.bytes_written + (
            s.pending_to - s.chunk) <= u64::MAX {
                lemma_advance(
                    frags,
                    SpeakStateView {
                        bytes_written: (s.bytes_written + (s.pending_to - s.chunk)) as u64,
                        chunk: s.pending_to,
                        ..s
                    },
                );
            }
        },
        _ => {},
    }
}

/// Law: the rate and volume change only by reads, and every synthesis is
/// asked for at the current rate and volume. So a rate read when a
/// sentence's flags ask for it is used for that sentence and the ones after
/// it, until the next read.
pub proof fn law_synthesis_uses_current_settings(frags: Seq<FragView>, s: SpeakStateView, e: SpeakEvent)
    ensures
        !(waits_for_rate(s.phase) && e is Rate) ==> step(frags, s, e).0.rate_adj == s.rate_adj,
        !(waits_for_volume(s.phase) && e is Volume) ==> step(frags, s, e).0.volume == s.volume,
        step(frags, s, e).1 matches SpeakActionView::Synthesize { rate_adj, volume, .. }
            ==> rate_adj == step(frags, s, e).0.rate_adj && volume == step(frags, s, e).0.volume,
{
    lemma_advance(frags, s);
    match s.phase {
        Phase::ReadingVolume { reread } => {
            if let SpeakEvent::Volume(v) = e {
                lemma_advance(frags, SpeakStateView { volume: match v { Some(x) => x, None => s.volume }, ..s });
            }
        },
        Phase::Synthesizing => {
            if let SpeakEvent::Audio { pcm_len } = e {
                lemma_advance(
                    frags,
                    SpeakStateView { sentence: (s.sentence + 1) as usize, buffer_len: pcm_len, chunk: 0, ..s },
                );
            }
        },
        Phase::Writing => {
            if s.pending_to >= s.chunk && s.pending_to <= s.buffer_len && s.bytes_written + (
            s.pending_to - s.chunk) <= u64::MAX {
                lemma_advance(
                    frags,
                    SpeakStateView {
                        bytes_written: (s.bytes_written + (s.pending_to - s.chunk)) as u64,
                        chunk: s.pending_to,
                        ..s
                    },
                );
            }
        },
        _ => {},
    }
}

/// Law: every sentence with words gets its word-boundary events. When the
/// audio of a sentence arrives (and the event arithmetic fits), a sentence
/// with at least one word leads to queueing one event per word: each word's
/// UTF-16 length, its offset in the caller's text (the fragment's offset
/// plus the word's), and its share of the audio after the bytes written so
/// far. A sentence without words queues nothing.
pub proof fn law_events_queued(frags: Seq<FragView>, s: SpeakStateView, pcm_len: usize)
    requires
        s.phase == Phase::Synthesizing,
        s.sentence < s.sentences.len(),
        events_fit(s.sentences[s.sentence as int], s.src_offset, s.bytes_written, pcm_len),
    ensures
        ({
            let sen = s.sentences[s.sentence as int];
            let r = step(frags, s, SpeakEvent::Audio { pcm_len });
            &&& sen.words.len() > 0 && sen.char_len > 0 ==> r.1 is AddEvents
            &&& r.1 matches SpeakActionView::AddEvents(ev) ==> {
                &&& ev.len() == sen.words.len()
                &&& forall|i: int|
                    0 <= i < ev.len() ==> (#[trigger] ev[i]).utf16_len == sen.words[i].utf16_len
                        && ev[i].text_offset == s.src_offset + sen.words[i].utf16_offset
                        && ev[i].audio_offset == crate::engine::word_audio_offset(
                        s.bytes_written as int,
                        pcm_len as int,
                        sen.words[i].char_start as int,
                        sen.char_len as int,
                    )
            }
            &&& sen.words.len() == 0 || sen.char_len == 0 ==> !(r.1 is AddEvents)
        }),
{
    let sen = s.sentences[s.sentence as int];
    let e = SpeakEvent::Audio { pcm_len };
    lemma_advance(frags, s);
    match s.phase {
        Phase::ReadingVolume { reread } => {
            if let SpeakEvent::Volume(v) = e {
                lemma_advance(frags, SpeakStateView { volume: match v { Some(x) => x, None => s.volume }, ..s });
            }
        },
        Phase::Synthesizing => {
            if let SpeakEvent::Audio { pcm_len } = e {
                lemma_advance(
                    frags,
                    SpeakStateView { sentence: (s.sentence + 1) as usize, buffer_len: pcm_len, chunk: 0, ..s },
                );
            }
        },
        Phase::Writing => {
            if s.pending_to >= s.chunk && s.pending_to <= s.buffer_len && s.bytes_written + (
            s.pending_to - s.chunk) <= u64::MAX {
                lemma_advance(
                    frags,
                    SpeakStateView {
                        bytes_written: (s.bytes_written + (s.pending_to - s.chunk)) as u64,
                        chunk: s.pending_to,
                        ..s
                    },
                );
            }
        },
        _ => {},
    }
    if sen.words.len() > 0 && sen.char_len > 0 {
        crate::engine::law_events_of_fit(sen, s.src_offset, s.bytes_written, pcm_len);
    }
}

} // verus!
