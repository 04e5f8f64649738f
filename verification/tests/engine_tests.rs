use azure_sapi::engine::{
    abort_requested, chunk_ranges, events_fit_check, make_frag, on_actions, output_format, pace, shifts_clock,
    silence_len, word_events, ActionResponse, AzureEngine, Frag, FragAction, WordEvent,
    BYTES_PER_MS, CHUNK_BYTES, MAX_LEAD_NS, MAX_PACE_SLEEP_NS, SPVES_ABORT, SPVES_RATE,
    SPVES_SKIP, SPVES_VOLUME,
};
use azure_sapi::sentence::{split_sentences, Sentence, Word};

#[test]
fn new_engine_has_default_voice_and_no_credentials() {
    let e = AzureEngine::new();
    assert_eq!(e.voice, "en-US-ChristopherNeural");
    assert_eq!(e.region, "");
    assert_eq!(e.key, "");
    assert_eq!(e.key_status(), "<missing>");
}

#[test]
fn token_values_replace_only_what_is_given() {
    let mut e = AzureEngine::new();
    e.apply_token_values(None, Some("westeurope".to_string()), Some("k1".to_string()));
    assert_eq!(e.voice, "en-US-ChristopherNeural");
    assert_eq!(e.region, "westeurope");
    assert_eq!(e.key, "k1");
    assert_eq!(e.key_status(), "<set>");
    e.apply_token_values(Some("en-GB-ThomasNeural".to_string()), None, None);
    assert_eq!(e.voice, "en-GB-ThomasNeural");
    assert_eq!(e.region, "westeurope");
}

#[test]
fn fragments_by_action() {
    let text = vec![0x48u16, 0x69];
    match make_frag(FragAction::Speak, text.clone(), 7, 0) {
        Some(Frag::Text { utf16, src_offset }) => {
            assert_eq!(utf16, text);
            assert_eq!(src_offset, 7);
        }
        _ => panic!("expected text"),
    }
    assert!(matches!(make_frag(FragAction::Pronounce, text.clone(), 0, 0), Some(Frag::Text { .. })));
    assert!(matches!(make_frag(FragAction::SpellOut, text.clone(), 0, 0), Some(Frag::Text { .. })));
    assert!(make_frag(FragAction::Speak, vec![], 0, 0).is_none());
    assert!(matches!(make_frag(FragAction::Silence, vec![], 0, 300), Some(Frag::SilenceMs(300))));
    assert!(make_frag(FragAction::Other, text, 0, 0).is_none());
}

#[test]
fn action_flags() {
    assert_eq!(SPVES_ABORT, 1);
    assert_eq!(SPVES_SKIP, 2);
    assert_eq!(SPVES_RATE, 4);
    assert_eq!(SPVES_VOLUME, 8);
    assert_eq!(on_actions(0), ActionResponse { abort: false, reread_rate: false, reread_volume: false });
    assert_eq!(on_actions(1 | 8), ActionResponse { abort: true, reread_rate: false, reread_volume: true });
    assert_eq!(on_actions(4 | 2), ActionResponse { abort: false, reread_rate: true, reread_volume: false });
    assert!(abort_requested(0xFFFF_FFFF));
    assert!(!abort_requested(2));
}

#[test]
fn silence_length_in_bytes() {
    assert_eq!(BYTES_PER_MS, 48);
    assert_eq!(silence_len(0), 0);
    assert_eq!(silence_len(1), 48);
    assert_eq!(silence_len(250), 12000);
}

#[test]
fn law_chunks_cover_audio() {
    assert_eq!(CHUNK_BYTES, 4800);
    assert!(chunk_ranges(0).is_empty());
    assert_eq!(chunk_ranges(4800), vec![(0, 4800)]);
    assert_eq!(chunk_ranges(4801), vec![(0, 4800), (4800, 4801)]);
    assert_eq!(chunk_ranges(10), vec![(0, 10)]);
    let r = chunk_ranges(20000);
    assert_eq!(r.len(), 5);
    assert_eq!(r[4], (19200, 20000));
    for k in 1..r.len() {
        assert_eq!(r[k - 1].1, r[k].0);
    }
}

#[test]
fn pacing_decision() {
    assert_eq!(MAX_LEAD_NS, 250_000_000);
    assert_eq!(MAX_PACE_SLEEP_NS, 50_000_000);
    assert_eq!(pace(0, 0), None);
    assert_eq!(pace(250_000_000, 0), None);
    assert_eq!(pace(260_000_000, 0), Some(10_000_000));
    assert_eq!(pace(1_000_000_000, 0), Some(50_000_000));
    assert_eq!(pace(1_000_000_000, 740_000_000), Some(10_000_000));
    assert_eq!(pace(1_000_000_000, 750_000_000), None);
    assert_eq!(pace(u64::MAX, u64::MAX), None);
}

#[test]
fn blocked_writes_shift_the_clock() {
    assert!(!shifts_clock(250_000_000));
    assert!(shifts_clock(250_000_001));
    assert!(!shifts_clock(0));
}

#[test]
fn word_events_are_proportional() {
    let s = split_sentences("Hello world. How are you?");
    let ev = word_events(&s[1], 7, 1000, 1300);
    assert_eq!(
        ev,
        vec![
            WordEvent { audio_offset: 1100, utf16_len: 3, text_offset: 20 },
            WordEvent { audio_offset: 1500, utf16_len: 3, text_offset: 24 },
            WordEvent { audio_offset: 1900, utf16_len: 4, text_offset: 28 },
        ]
    );
}

#[test]
fn word_event_offsets_are_rounded_to_samples() {
    let s = Sentence {
        text: "a b".to_string(),
        words: vec![Word { utf16_offset: 0, utf16_len: 1, char_start: 0 }, Word { utf16_offset: 2, utf16_len: 1, char_start: 2 }],
        char_len: 3,
    };
    let ev = word_events(&s, 0, 0, 10);
    assert_eq!(ev[0].audio_offset, 0);
    assert_eq!(ev[1].audio_offset, 6);
    let ev2 = word_events(&s, 0, 1, 10);
    assert_eq!(ev2[1].audio_offset, 6);
}

#[test]
fn no_events_without_words() {
    let s = Sentence { text: String::new(), words: vec![], char_len: 5 };
    assert!(word_events(&s, 0, 0, 100).is_empty());
    let z = Sentence {
        text: String::new(),
        words: vec![Word { utf16_offset: 0, utf16_len: 1, char_start: 0 }],
        char_len: 0,
    };
    assert!(word_events(&z, 0, 0, 100).is_empty());
}

#[test]
fn law_word_events_in_audio_on_values() {
    let s = split_sentences("one two three four five six seven.");
    let base = 4800u64;
    let pcm_len = 33333usize;
    let ev = word_events(&s[0], 0, base, pcm_len);
    let mut last = 0u64;
    for e in &ev {
        assert_eq!(e.audio_offset % 2, 0);
        assert!(e.audio_offset >= base && e.audio_offset <= base + pcm_len as u64);
        assert!(e.audio_offset >= last);
        last = e.audio_offset;
    }
}

#[test]
fn output_format_is_24khz_16bit_mono() {
    let f = output_format();
    assert_eq!(f.format_tag, 1);
    assert_eq!(f.channels, 1);
    assert_eq!(f.samples_per_sec, 24000);
    assert_eq!(f.avg_bytes_per_sec, 48000);
    assert_eq!(f.block_align, 2);
    assert_eq!(f.bits_per_sample, 16);
    assert_eq!(f.extra_size, 0);
}

#[test]
fn event_arithmetic_check() {
    let s = split_sentences("Hello world. How are you?");
    assert!(events_fit_check(&s[1], 7, 1000, 1300));
    assert!(!events_fit_check(&s[1], u32::MAX, 1000, 1300));
    assert!(!events_fit_check(&s[1], 0, u64::MAX, 1300));
    assert!(!events_fit_check(&s[1], 0, 0, usize::MAX));
    let empty = Sentence { text: String::new(), words: vec![], char_len: 0 };
    assert!(events_fit_check(&empty, u32::MAX, u64::MAX, usize::MAX));
}
