use azure_sapi::engine::split_fragment;
use azure_sapi::sentence::{make_sentence, split_chars, split_sentences, Word};

fn w(utf16_offset: u32, utf16_len: u32, char_start: usize) -> Word {
    Word { utf16_offset, utf16_len, char_start }
}

#[test]
fn two_sentences_keep_their_terminators() {
    let s = split_sentences("Hello world. How are you?");
    assert_eq!(s.len(), 2);
    assert_eq!(s[0].text, "Hello world.");
    assert_eq!(s[0].char_len, 12);
    assert_eq!(s[0].words, vec![w(0, 5, 0), w(6, 6, 6)]);
    assert_eq!(s[1].text, "How are you?");
    assert_eq!(s[1].char_len, 13);
    assert_eq!(s[1].words, vec![w(13, 3, 1), w(17, 3, 5), w(21, 4, 9)]);
}

#[test]
fn every_terminator_cuts() {
    let s = split_sentences("a.b!c?d\u{2026}e;f:g");
    let texts: Vec<&str> = s.iter().map(|x| x.text.as_str()).collect();
    assert_eq!(texts, vec!["a.", "b!", "c?", "d\u{2026}", "e;", "f:", "g"]);
}

#[test]
fn pieces_without_letters_or_digits_are_dropped() {
    let s = split_sentences("Wait... ok.  ");
    let texts: Vec<&str> = s.iter().map(|x| x.text.as_str()).collect();
    assert_eq!(texts, vec!["Wait.", "ok."]);
    assert!(split_sentences("").is_empty());
    assert!(split_sentences("   ").is_empty());
    assert!(split_sentences("?!.").is_empty());
}

#[test]
fn digits_count_as_content() {
    let s = split_sentences("42.");
    assert_eq!(s.len(), 1);
    assert_eq!(s[0].text, "42.");
}

#[test]
fn text_without_terminator_is_one_sentence() {
    let s = split_sentences("  no end here ");
    assert_eq!(s.len(), 1);
    assert_eq!(s[0].text, "no end here");
    assert_eq!(s[0].char_len, 14);
    assert_eq!(s[0].words, vec![w(2, 2, 2), w(5, 3, 5), w(9, 4, 9)]);
}

#[test]
fn astral_characters_take_two_utf16_units() {
    let s = split_sentences("\u{1F600}ab cd.");
    assert_eq!(s.len(), 1);
    assert_eq!(s[0].words, vec![w(0, 4, 0), w(5, 3, 4)]);
    let t = split_sentences("x\u{1F600}. y z.");
    assert_eq!(t[1].words, vec![w(5, 1, 1), w(7, 2, 3)]);
}

#[test]
fn make_sentence_counts_from_untrimmed_start() {
    let chars: Vec<char> = "ab  cd ef".chars().collect();
    let s = make_sentence(&chars, 2, 9);
    assert_eq!(s.text, "cd ef");
    assert_eq!(s.char_len, 7);
    assert_eq!(s.words, vec![w(4, 2, 2), w(7, 2, 5)]);
    let empty = make_sentence(&chars, 3, 3);
    assert_eq!(empty.text, "");
    assert!(empty.words.is_empty());
    assert_eq!(empty.char_len, 0);
}

#[test]
fn split_chars_matches_split_sentences() {
    let text = "One. Two three!";
    let chars: Vec<char> = text.chars().collect();
    let a = split_chars(&chars);
    let b = split_sentences(text);
    assert_eq!(a.len(), b.len());
    for (x, y) in a.iter().zip(b.iter()) {
        assert_eq!(x.text, y.text);
        assert_eq!(x.words, y.words);
        assert_eq!(x.char_len, y.char_len);
    }
}

#[test]
fn fragment_is_decoded_from_utf16() {
    let units: Vec<u16> = "Hi there. Bye.".encode_utf16().collect();
    let s = split_fragment(&units).unwrap();
    assert_eq!(s.len(), 2);
    assert_eq!(s[0].text, "Hi there.");
    assert_eq!(s[1].text, "Bye.");
    assert_eq!(s[1].words, vec![w(10, 4, 1)]);
}

#[test]
fn unpaired_surrogate_becomes_replacement_character() {
    let units: Vec<u16> = vec![0x61, 0xD800, 0x62, 0x2E];
    let s = split_fragment(&units).unwrap();
    assert_eq!(s.len(), 1);
    assert_eq!(s[0].text, "a\u{FFFD}b.");
    assert_eq!(s[0].words, vec![w(0, 4, 0)]);
}

#[test]
fn law_pieces_cover_the_text() {
    // Concatenating the untrimmed pieces (char_len each) rebuilds the text
    // when every piece has content.
    let text = "Alpha beta. Gamma! Delta";
    let s = split_sentences(text);
    let total: usize = s.iter().map(|x| x.char_len).sum();
    assert_eq!(total, text.chars().count());
    for x in &s {
        let t = x.text.as_str();
        assert_eq!(t, t.trim());
        assert!(t.chars().any(|c| c.is_alphanumeric()));
    }
}

#[test]
fn law_words_are_whitespace_runs() {
    let text = " a  bb\tccc d ";
    let chars: Vec<char> = text.chars().collect();
    let s = make_sentence(&chars, 0, chars.len());
    let starts: Vec<usize> = s.words.iter().map(|x| x.char_start).collect();
    assert_eq!(starts, vec![1, 4, 7, 11]);
    let lens: Vec<u32> = s.words.iter().map(|x| x.utf16_len).collect();
    assert_eq!(lens, vec![1, 2, 3, 1]);
    for x in &s.words {
        assert!(!chars[x.char_start].is_whitespace());
        assert!(x.char_start == 0 || chars[x.char_start - 1].is_whitespace());
    }
}
