use azure_sapi::engine::{Frag, WordEvent};
use azure_sapi::speak::{speak_start, speak_step, Phase, SpeakAction, SpeakEvent, SpeakState};

fn text(s: &str, off: u32) -> Frag {
    Frag::Text { utf16: s.encode_utf16().collect(), src_offset: off }
}

fn step(frags: &Vec<Frag>, s: SpeakState, e: SpeakEvent) -> (SpeakState, SpeakAction) {
    speak_step(frags, s, e)
}

/// Drives the loop with a site that never aborts, never blocks and whose
/// clock keeps up, synthesizing `pcm_len` bytes per sentence; returns the
/// actions in order.
fn run(frags: &Vec<Frag>, pcm_len: usize) -> (Vec<SpeakAction>, SpeakState) {
    let mut s = speak_start();
    let mut e = SpeakEvent::Begin;
    let mut out = Vec::new();
    for _ in 0..10_000 {
        let (n, a) = step(frags, s, e);
        s = n;
        e = match &a {
            SpeakAction::ReadRate => SpeakEvent::Rate(Some(3)),
            SpeakAction::ReadVolume => SpeakEvent::Volume(Some(80)),
            SpeakAction::ReadActions => SpeakEvent::Actions(0),
            SpeakAction::Synthesize { .. } => SpeakEvent::Audio { pcm_len },
            SpeakAction::AddEvents(_) | SpeakAction::StartSilence { .. } | SpeakAction::ShiftClock { .. } => SpeakEvent::Ack,
            SpeakAction::PollPacing { .. } | SpeakAction::Sleep { .. } => {
                SpeakEvent::Pacing { actions: 0, audio_pos_ns: 0, elapsed_ns: 0 }
            }
            SpeakAction::Write { .. } => SpeakEvent::Written { ok: true, blocked_ns: 0 },
            SpeakAction::Done | SpeakAction::Fail => {
                out.push(a);
                return (out, s);
            }
        };
        out.push(a);
    }
    panic!("the loop did not end");
}

#[test]
fn speaks_fragments_in_order() {
    let frags = vec![Frag::SilenceMs(100), text("Hi there. Bye.", 7)];
    let (acts, s) = run(&frags, 6000);
    assert!(matches!(acts[0], SpeakAction::ReadRate));
    assert!(matches!(acts[1], SpeakAction::ReadVolume));
    assert!(matches!(acts[2], SpeakAction::StartSilence { len: 4800 }));
    assert!(matches!(acts[3], SpeakAction::PollPacing { bytes_written: 0 }));
    assert!(matches!(acts[4], SpeakAction::ReadActions));
    assert!(matches!(acts[5], SpeakAction::Write { from: 0, to: 4800 }));
    assert!(matches!(acts[6], SpeakAction::ReadActions));
    match &acts[7] {
        SpeakAction::Synthesize { text, rate_adj, volume } => {
            assert_eq!(text, "Hi there.");
            assert_eq!((*rate_adj, *volume), (3, 80));
        }
        a => panic!("unexpected {a:?}"),
    }
    match &acts[8] {
        SpeakAction::AddEvents(ev) => assert_eq!(
            ev,
            &vec![
                WordEvent { audio_offset: 4800, utf16_len: 2, text_offset: 7 },
                WordEvent { audio_offset: 4800 + 6000 * 3 / 9, utf16_len: 6, text_offset: 10 },
            ]
        ),
        a => panic!("unexpected {a:?}"),
    }
    let writes: Vec<(usize, usize)> = acts
        .iter()
        .filter_map(|a| if let SpeakAction::Write { from, to } = a { Some((*from, *to)) } else { None })
        .collect();
    assert_eq!(writes, vec![(0, 4800), (0, 4800), (4800, 6000), (0, 4800), (4800, 6000)]);
    let texts: Vec<String> = acts
        .iter()
        .filter_map(|a| if let SpeakAction::Synthesize { text, .. } = a { Some(text.clone()) } else { None })
        .collect();
    assert_eq!(texts, vec!["Hi there.".to_string(), "Bye.".to_string()]);
    assert!(matches!(acts.last().unwrap(), SpeakAction::Done));
    assert_eq!(s.bytes_written, 4800 + 6000 + 6000);
    assert_eq!(s.phase, Phase::Done);
}

#[test]
fn empty_list_is_done_at_once() {
    let frags: Vec<Frag> = vec![];
    let (acts, _) = run(&frags, 10);
    assert_eq!(acts.len(), 3);
    assert!(matches!(acts[2], SpeakAction::Done));
    let (acts2, _) = run(&vec![text("...", 0), text("  ", 0)], 10);
    assert!(matches!(acts2[2], SpeakAction::Done));
}

#[test]
fn law_abort_stops_before_a_sentence() {
    let frags = vec![text("One. Two.", 0)];
    let (s, _) = step(&frags, speak_start(), SpeakEvent::Begin);
    let (s, _) = step(&frags, s, SpeakEvent::Rate(None));
    let (s, a) = step(&frags, s, SpeakEvent::Volume(None));
    assert!(matches!(a, SpeakAction::ReadActions));
    assert_eq!((s.rate_adj, s.volume), (0, 100));
    let (s, a) = step(&frags, s, SpeakEvent::Actions(1 | 4));
    assert!(matches!(a, SpeakAction::Done));
    let (_, a) = step(&frags, s, SpeakEvent::Ack);
    assert!(matches!(a, SpeakAction::Done));
}

#[test]
fn law_abort_stops_while_pacing_and_before_a_write() {
    let frags = vec![Frag::SilenceMs(10)];
    let (s, _) = step(&frags, speak_start(), SpeakEvent::Begin);
    let (s, _) = step(&frags, s, SpeakEvent::Rate(Some(1)));
    let (s, a) = step(&frags, s, SpeakEvent::Volume(Some(1)));
    assert!(matches!(a, SpeakAction::StartSilence { len: 480 }));
    let (s, a) = step(&frags, s, SpeakEvent::Ack);
    assert!(matches!(a, SpeakAction::PollPacing { .. }));
    let (s2, a) = step(&frags, s, SpeakEvent::Pacing { actions: 0, audio_pos_ns: 400_000_000, elapsed_ns: 0 });
    assert!(matches!(a, SpeakAction::Sleep { ns: 50_000_000 }));
    let (s3, a) = step(&frags, s2, SpeakEvent::Pacing { actions: 0, audio_pos_ns: 0, elapsed_ns: 0 });
    assert!(matches!(a, SpeakAction::ReadActions));
    let (s4, a) = step(&frags, s3, SpeakEvent::Actions(1));
    assert!(matches!(a, SpeakAction::Done));
    assert_eq!(s4.bytes_written, 0);
    let (s5, _) = step(&frags, speak_start(), SpeakEvent::Begin);
    let (s5, _) = step(&frags, s5, SpeakEvent::Rate(None));
    let (s5, _) = step(&frags, s5, SpeakEvent::Volume(None));
    let (s5, _) = step(&frags, s5, SpeakEvent::Ack);
    let (_, a) = step(&frags, s5, SpeakEvent::Pacing { actions: 1, audio_pos_ns: 0, elapsed_ns: 0 });
    assert!(matches!(a, SpeakAction::Done));
}

#[test]
fn refused_write_ends_speaking_and_counts_nothing() {
    let frags = vec![Frag::SilenceMs(10)];
    let mut s = speak_start();
    for e in [
        SpeakEvent::Begin,
        SpeakEvent::Rate(None),
        SpeakEvent::Volume(None),
        SpeakEvent::Ack,
        SpeakEvent::Pacing { actions: 0, audio_pos_ns: 0, elapsed_ns: 0 },
        SpeakEvent::Actions(0),
    ] {
        s = step(&frags, s, e).0;
    }
    assert_eq!(s.phase, Phase::Writing);
    let (s, a) = step(&frags, s, SpeakEvent::Written { ok: false, blocked_ns: 0 });
    assert!(matches!(a, SpeakAction::Done));
    assert_eq!(s.bytes_written, 0);
}

#[test]
fn blocked_write_shifts_the_clock() {
    let frags = vec![Frag::SilenceMs(10)];
    let mut s = speak_start();
    for e in [
        SpeakEvent::Begin,
        SpeakEvent::Rate(None),
        SpeakEvent::Volume(None),
        SpeakEvent::Ack,
        SpeakEvent::Pacing { actions: 0, audio_pos_ns: 0, elapsed_ns: 0 },
        SpeakEvent::Actions(0),
    ] {
        s = step(&frags, s, e).0;
    }
    let (s, a) = step(&frags, s, SpeakEvent::Written { ok: true, blocked_ns: 300_000_000 });
    assert!(matches!(a, SpeakAction::ShiftClock { ns: 300_000_000 }));
    assert_eq!(s.bytes_written, 480);
    let (_, a) = step(&frags, s, SpeakEvent::Ack);
    assert!(matches!(a, SpeakAction::Done));
}

#[test]
fn rate_and_volume_are_reread_when_flagged() {
    let frags = vec![text("A.", 0)];
    let (s, _) = step(&frags, speak_start(), SpeakEvent::Begin);
    let (s, _) = step(&frags, s, SpeakEvent::Rate(Some(2)));
    let (s, _) = step(&frags, s, SpeakEvent::Volume(Some(50)));
    let (s, a) = step(&frags, s, SpeakEvent::Actions(4 | 8));
    assert!(matches!(a, SpeakAction::ReadRate));
    let (s, a) = step(&frags, s, SpeakEvent::Rate(None));
    assert!(matches!(a, SpeakAction::ReadVolume));
    let (_, a) = step(&frags, s, SpeakEvent::Volume(Some(20)));
    assert!(matches!(a, SpeakAction::Synthesize { rate_adj: 2, volume: 20, .. }));
    let (s, _) = step(&frags, speak_start(), SpeakEvent::Begin);
    let (s, _) = step(&frags, s, SpeakEvent::Rate(Some(2)));
    let (s, _) = step(&frags, s, SpeakEvent::Volume(Some(50)));
    let (s, a) = step(&frags, s, SpeakEvent::Actions(8));
    assert!(matches!(a, SpeakAction::ReadVolume));
    let (_, a) = step(&frags, s, SpeakEvent::Volume(None));
    assert!(matches!(a, SpeakAction::Synthesize { rate_adj: 2, volume: 50, .. }));
}

#[test]
fn protocol_errors_and_overflows_fail() {
    let frags = vec![Frag::SilenceMs(u32::MAX)];
    let (s, a) = step(&frags, speak_start(), SpeakEvent::Ack);
    assert!(matches!(a, SpeakAction::Fail));
    assert_eq!(s.phase, Phase::Failed);
    let (s, _) = step(&frags, speak_start(), SpeakEvent::Begin);
    let (s, _) = step(&frags, s, SpeakEvent::Rate(None));
    let (_, a) = step(&frags, s, SpeakEvent::Volume(None));
    assert!(matches!(a, SpeakAction::Fail));
}
