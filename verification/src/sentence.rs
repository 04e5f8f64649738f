//! Splitting spoken text into sentences and words.
//!
//! Text is cut after each sentence-final punctuation mark (`.` `!` `?` `…`
//! `;` `:`), keeping the mark with its sentence; pieces without any letter or
//! digit are dropped. Each sentence records its words (maximal runs of
//! non-whitespace characters) with their UTF-16 offsets in the fragment, so
//! that word-boundary events can point back into the caller's text.

use vstd::prelude::*;

use crate::text::{
    char_is_alphanumeric, char_is_whitespace, copy_range, is_alphanumeric, is_white_space,
    lemma_utf16_count_bounds, lemma_utf16_count_range, lemma_utf16_count_take, string_of,
    trim, trim_chars, utf16_count, utf16_len, chars_of,
};

verus! {

/// Sentence-final punctuation.
pub open spec fn is_sentence_end(c: char) -> bool {
    c == '.' || c == '!' || c == '?' || c == '\u{2026}' || c == ';' || c == ':'
}

fn sentence_end_char(c: char) -> (b: bool)
    ensures
        b == is_sentence_end(c),
{
    c == '.' || c == '!' || c == '?' || c == '\u{2026}' || c == ';' || c == ':'
}

/// One word of a sentence: where it starts in the fragment (UTF-16 units),
/// how long it is (UTF-16 units), and where it starts in the sentence
/// (characters, counted from the sentence's untrimmed start).
#[derive(Clone, Copy, Debug, PartialEq, Eq, Structural)]
pub struct Word {
    pub utf16_offset: u32,
    pub utf16_len: u32,
    pub char_start: usize,
}

/// A sentence to synthesize: its trimmed text, its words, and the number of
/// characters of the untrimmed piece it came from.
#[derive(Debug)]
pub struct Sentence {
    pub text: String,
    pub words: Vec<Word>,
    pub char_len: usize,
}

/// Mathematical model of a [`Sentence`].
pub struct SentenceView {
    pub text: Seq<char>,
    pub words: Seq<Word>,
    pub char_len: nat,
}

impl View for Sentence {
    type V = SentenceView;

    open spec fn view(&self) -> SentenceView {
        SentenceView { text: self.text@, words: self.words@, char_len: self.char_len as nat }
    }
}

/// End (exclusive) of the run of non-whitespace characters that starts at `j`,
/// looking no further than `end`.
pub open spec fn word_end(chars: Seq<char>, j: int, end: int) -> int
    decreases end - j,
{
    if j < end && !is_white_space(chars[j]) {
        word_end(chars, j + 1, end)
    } else {
        j
    }
}

/// The words of `chars[j..end]`, for a sentence that starts at `start`.
pub open spec fn words_in(chars: Seq<char>, start: int, j: int, end: int) -> Seq<Word>
    decreases end - j,
{
    if j >= end {
        Seq::empty()
    } else if is_white_space(chars[j]) {
        words_in(chars, start, j + 1, end)
    } else {
        let e = word_end(chars, j, end);
        if e <= j || e > end {
            Seq::empty()
        } else {
            seq![
                Word {
                    utf16_offset: utf16_count(chars.take(j)) as u32,
                    utf16_len: utf16_count(chars.subrange(j, e)) as u32,
                    char_start: (j - start) as usize,
                },
            ] + words_in(chars, start, e, end)
        }
    }
}

/// The sentence made of `chars[start..end]`.
pub open spec fn sentence_view(chars: Seq<char>, start: int, end: int) -> SentenceView {
    SentenceView {
        text: trim(chars.subrange(start, end)),
        words: words_in(chars, start, start, end),
        char_len: (end - start) as nat,
    }
}

/// Words start inside the sentence, in strictly increasing order.
pub open spec fn sentence_wf(s: SentenceView) -> bool {
    &&& forall|i: int| 0 <= i < s.words.len() ==> (#[trigger] s.words[i]).char_start < s.char_len
    &&& forall|i: int, k: int|
        0 <= i < k < s.words.len() ==> (#[trigger] s.words[i]).char_start
            < (#[trigger] s.words[k]).char_start
}

/// End (exclusive) of the piece of text that starts at `i`: one past the
/// first sentence-final mark at or after `i`, or the end of the text.
pub open spec fn piece_end(chars: Seq<char>, i: int) -> int
    decreases chars.len() - i,
{
    if i >= chars.len() - 1 {
        chars.len() as int
    } else if is_sentence_end(chars[i]) {
        i + 1
    } else {
        piece_end(chars, i + 1)
    }
}

/// Whether a piece is spoken: its trimmed text holds a letter or digit.
pub open spec fn has_content(piece: Seq<char>) -> bool {
    exists|k: int| 0 <= k < trim(piece).len() && is_alphanumeric(#[trigger] trim(piece)[k])
}

/// The sentences of `chars`, from position `start` on.
pub open spec fn sentences_from(chars: Seq<char>, start: int) -> Seq<SentenceView>
    decreases chars.len() - start,
{
    if start < 0 || start >= chars.len() {
        Seq::empty()
    } else {
        let e = piece_end(chars, start);
        if e <= start || e > chars.len() {
            Seq::empty()
        } else {
            let rest = sentences_from(chars, e);
            if has_content(chars.subrange(start, e)) {
                seq![sentence_view(chars, start, e)] + rest
            } else {
                rest
            }
        }
    }
}

/// All sentences of `chars`.
pub open spec fn sentences(chars: Seq<char>) -> Seq<SentenceView> {
    sentences_from(chars, 0)
}

/// The models of a list of sentences.
pub open spec fn views(v: Seq<Sentence>) -> Seq<SentenceView> {
    v.map_values(|s: Sentence| s@)
}

pub proof fn lemma_piece_end_bounds(chars: Seq<char>, i: int)
    requires
        0 <= i < chars.len(),
    ensures
        i < piece_end(chars, i) <= chars.len(),
    decreases chars.len() - i,
{
    if i < chars.len() - 1 && !is_sentence_end(chars[i]) {
        lemma_piece_end_bounds(chars, i + 1);
    }
}

pub proof fn lemma_word_end(chars: Seq<char>, j: int, end: int)
    requires
        0 <= j <= end <= chars.len(),
    ensures
        j <= word_end(chars, j, end) <= end,
        j < end && !is_white_space(chars[j]) ==> j < word_end(chars, j, end),
        forall|k: int| j <= k < word_end(chars, j, end) ==> !is_white_space(#[trigger] chars[k]),
        word_end(chars, j, end) < end ==> is_white_space(chars[word_end(chars, j, end)]),
    decreases end - j,
{
    if j < end && !is_white_space(chars[j]) {
        lemma_word_end(chars, j + 1, end);
    }
}

/// Where the piece starting at `start` ends.
fn find_piece_end(chars: &[char], start: usize) -> (e: usize)
    requires
        start < chars@.len(),
    ensures
        e == piece_end(chars@, start as int),
        start < e <= chars@.len(),
{
    let n = chars.len();
    let mut i = start;
    loop
        invariant
            n == chars@.len(),
            start <= i < n,
            piece_end(chars@, start as int) == piece_end(chars@, i as int),
        decreases n - i,
    {
        if i == n - 1 || sentence_end_char(chars[i]) {
            return i + 1;
        }
        i = i + 1;
    }
}

/// Whether `chars[start..end]` is spoken (see [`has_content`]).
fn piece_has_content(chars: &[char], start: usize, end: usize) -> (b: bool)
    requires
        start <= end <= chars@.len(),
    ensures
        b == has_content(chars@.subrange(start as int, end as int)),
{
    let piece = copy_range(chars, start, end);
    let t = trim_chars(piece.as_slice());
    let mut k: usize = 0;
    while k < t.len()
        invariant
            t@ == trim(chars@.subrange(start as int, end as int)),
            k <= t@.len(),
            forall|m: int| 0 <= m < k ==> !is_alphanumeric(#[trigger] t@[m]),
        decreases t@.len() - k,
    {
        if char_is_alphanumeric(t[k]) {
            return true;
        }
        k = k + 1;
    }
    false
}

/// The pieces of `chars` from position `start` on, as `(start, end)` ranges.
pub open spec fn pieces_from(chars: Seq<char>, start: int) -> Seq<(int, int)>
    decreases chars.len() - start,
{
    if start < 0 || start >= chars.len() {
        Seq::empty()
    } else {
        let e = piece_end(chars, start);
        if e <= start || e > chars.len() {
            Seq::empty()
        } else {
            seq![(start, e)] + pieces_from(chars, e)
        }
    }
}

/// The pieces of the whole text.
pub open spec fn pieces(chars: Seq<char>) -> Seq<(int, int)> {
    pieces_from(chars, 0)
}

/// The sentences of the pieces `ps` that have content, in order.
pub open spec fn contentful(chars: Seq<char>, ps: Seq<(int, int)>) -> Seq<SentenceView>
    decreases ps.len(),
{
    if ps.len() == 0 {
        Seq::empty()
    } else {
        let rest = contentful(chars, ps.drop_first());
        if has_content(chars.subrange(ps[0].0, ps[0].1)) {
            seq![sentence_view(chars, ps[0].0, ps[0].1)] + rest
        } else {
            rest
        }
    }
}

proof fn lemma_piece_end_marks(chars: Seq<char>, i: int)
    requires
        0 <= i < chars.len(),
    ensures
        forall|k: int| i <= k < piece_end(chars, i) - 1 ==> !is_sentence_end(#[trigger] chars[k]),
        piece_end(chars, i) < chars.len() ==> is_sentence_end(chars[piece_end(chars, i) - 1]),
    decreases chars.len() - i,
{
    lemma_piece_end_bounds(chars, i);
    if i < chars.len() - 1 && !is_sentence_end(chars[i]) {
        lemma_piece_end_marks(chars, i + 1);
    }
}

proof fn lemma_pieces_from(chars: Seq<char>, s: int)
    requires
        0 <= s <= chars.len(),
    ensures
        ({
            let p = pieces_from(chars, s);
            &&& s == chars.len() <==> p.len() == 0
            &&& p.len() > 0 ==> p[0].0 == s && p.last().1 == chars.len()
            &&& forall|k: int| 0 <= k < p.len() ==> s <= (#[trigger] p[k]).0 < p[k].1 <= chars.len()
            &&& forall|k: int| 0 <= k < p.len() - 1 ==> (#[trigger] p[k]).1 == p[k + 1].0
            &&& forall|k: int, i: int|
                0 <= k < p.len() && (#[trigger] p[k]).0 <= i < p[k].1 - 1 ==> !is_sentence_end(
                    #[trigger] chars[i],
                )
            &&& forall|k: int|
                0 <= k < p.len() && (#[trigger] p[k]).1 < chars.len() ==> is_sentence_end(
                    chars[p[k].1 - 1],
                )
        }),
        sentences_from(chars, s) == contentful(chars, pieces_from(chars, s)),
    decreases chars.len() - s,
{
    if s < chars.len() {
        lemma_piece_end_bounds(chars, s);
        lemma_piece_end_marks(chars, s);
        let e = piece_end(chars, s);
        lemma_pieces_from(chars, e);
        let p = pieces_from(chars, s);
        let rest = pieces_from(chars, e);
        assert(p == seq![(s, e)] + rest);
        assert(p.drop_first() =~= rest);
        assert forall|k: int| 0 <= k < p.len() - 1 implies (#[trigger] p[k]).1 == p[k + 1].0 by {
            if k > 0 {
                assert(p[k] == rest[k - 1]);
            }
            assert(p[k + 1] == rest[k]);
        }
        assert forall|k: int| 0 <= k < p.len() implies s <= (#[trigger] p[k]).0 < p[k].1 <= chars.len() by {
            if k > 0 {
                assert(p[k] == rest[k - 1]);
            }
        }
        assert forall|k: int, i: int|
            0 <= k < p.len() && (#[trigger] p[k]).0 <= i < p[k].1 - 1 implies !is_sentence_end(
                #[trigger] chars[i],
            ) by {
            if k > 0 {
                assert(p[k] == rest[k - 1]);
            }
        }
        assert forall|k: int| 0 <= k < p.len() && (#[trigger] p[k]).1 < chars.len() implies is_sentence_end(
            chars[p[k].1 - 1],
        ) by {
            if k > 0 {
                assert(p[k] == rest[k - 1]);
            }
        }
        if rest.len() > 0 {
            assert(p.last() == rest.last());
        }
    } else {
        assert(pieces_from(chars, s) =~= Seq::<(int, int)>::empty());
    }
}

/// Law: the text is cut into consecutive, non-empty pieces from its start to
/// its end; a sentence-final mark stands only as the last character of a
/// piece, and every piece but the last ends with one. The sentences are the
/// pieces that hold a letter or digit, in order.
pub proof fn law_split_partition(chars: Seq<char>)
    ensures
        ({
            let p = pieces(chars);
            &&& chars.len() == 0 <==> p.len() == 0
            &&& p.len() > 0 ==> p[0].0 == 0 && p.last().1 == chars.len()
            &&& forall|k: int| 0 <= k < p.len() ==> 0 <= (#[trigger] p[k]).0 < p[k].1 <= chars.len()
            &&& forall|k: int| 0 <= k < p.len() - 1 ==> (#[trigger] p[k]).1 == p[k + 1].0
            &&& forall|k: int, i: int|
                0 <= k < p.len() && (#[trigger] p[k]).0 <= i < p[k].1 - 1 ==> !is_sentence_end(
                    #[trigger] chars[i],
                )
            &&& forall|k: int|
                0 <= k < p.len() && (#[trigger] p[k]).1 < chars.len() ==> is_sentence_end(
                    chars[p[k].1 - 1],
                )
        }),
        sentences(chars) == contentful(chars, pieces(chars)),
{
    lemma_pieces_from(chars, 0);
}

/// Whether `s` holds a letter or digit anywhere.
pub open spec fn has_alphanumeric(s: Seq<char>) -> bool {
    exists|k: int| 0 <= k < s.len() && is_alphanumeric(#[trigger] s[k])
}

/// Law: a piece is spoken exactly when it holds a letter or digit anywhere;
/// trimming first changes nothing, since whitespace is never one. With
/// [`law_split_partition`], the sentences are the pieces between
/// consecutive cuts that hold a letter or digit, in order.
pub proof fn law_content_is_any_alphanumeric(piece: Seq<char>)
    ensures
        has_content(piece) <==> has_alphanumeric(piece),
{
    crate::text::law_trim_shape(piece);
    let (a, b) = choose|a: int, b: int|
        0 <= a <= b <= piece.len() && trim(piece) == piece.subrange(a, b) && (forall|i: int|
            0 <= i < a ==> is_white_space(#[trigger] piece[i])) && (forall|i: int|
            b <= i < piece.len() ==> is_white_space(#[trigger] piece[i]));
    let t = trim(piece);
    if has_content(piece) {
        let k = choose|k: int| 0 <= k < t.len() && is_alphanumeric(#[trigger] t[k]);
        assert(piece[a + k] == t[k]);
        assert(is_alphanumeric(piece[a + k]));
    }
    if has_alphanumeric(piece) {
        let k = choose|k: int| 0 <= k < piece.len() && is_alphanumeric(#[trigger] piece[k]);
        assert(a <= k < b);
        assert(t[k - a] == piece[k]);
        assert(is_alphanumeric(t[k - a]));
    }
}

/// Whether `c` is one of `.` `!` `?` `…` `;` `:`.
pub open spec fn is_one_of_six_marks(c: char) -> bool {
    ||| c == '.'
    ||| c == '!'
    ||| c == '?'
    ||| c == '\u{2026}'
    ||| c == ';'
    ||| c == ':'
}

/// Law: the text is cut only after `.` `!` `?` `…` `;` `:` and at its end:
/// every piece but the last ends with one of these six marks, and none of
/// them stands anywhere else in a piece.
pub proof fn law_cuts_only_at_marks(chars: Seq<char>)
    ensures
        forall|k: int|
            0 <= k < pieces(chars).len() && (#[trigger] pieces(chars)[k]).1 < chars.len()
                ==> is_one_of_six_marks(chars[pieces(chars)[k].1 - 1]),
        forall|k: int, i: int|
            0 <= k < pieces(chars).len() && (#[trigger] pieces(chars)[k]).0 <= i < pieces(
                chars,
            )[k].1 - 1 ==> !is_one_of_six_marks(#[trigger] chars[i]),
{
    law_split_partition(chars);
}

proof fn lemma_unmarked_piece_end(chars: Seq<char>, i: int)
    requires
        0 <= i < chars.len(),
        forall|j: int| 0 <= j < chars.len() ==> !is_one_of_six_marks(#[trigger] chars[j]),
    ensures
        piece_end(chars, i) == chars.len(),
    decreases chars.len() - i,
{
    if i < chars.len() - 1 {
        assert(!is_one_of_six_marks(chars[i]));
        lemma_unmarked_piece_end(chars, i + 1);
    }
}

/// Law: a text with none of the six marks and with a letter or digit is one
/// sentence: the whole text, trimmed, with the whole text's length.
pub proof fn law_unmarked_text_is_one_sentence(chars: Seq<char>)
    requires
        forall|j: int| 0 <= j < chars.len() ==> !is_one_of_six_marks(#[trigger] chars[j]),
        has_alphanumeric(chars),
    ensures
        sentences(chars).len() == 1,
        sentences(chars)[0].text == trim(chars),
        sentences(chars)[0].char_len == chars.len(),
{
    let k = choose|k: int| 0 <= k < chars.len() && is_alphanumeric(#[trigger] chars[k]);
    assert(chars.len() > 0);
    lemma_unmarked_piece_end(chars, 0);
    assert(chars.subrange(0, chars.len() as int) =~= chars);
    law_content_is_any_alphanumeric(chars);
    assert(sentences_from(chars, chars.len() as int) =~= Seq::<SentenceView>::empty());
    assert(sentences(chars) =~= seq![sentence_view(chars, 0, chars.len() as int)]);
}

/// Law: every sentence's text is its piece trimmed: it holds a letter or
/// digit and neither starts nor ends with whitespace; its character length
/// is that of the untrimmed piece.
pub proof fn law_sentence_text(chars: Seq<char>)
    ensures
        forall|k: int|
            0 <= k < sentences(chars).len() ==> {
                let t = (#[trigger] sentences(chars)[k]).text;
                &&& t.len() > 0
                &&& !is_white_space(t[0])
                &&& !is_white_space(t.last())
                &&& exists|m: int| 0 <= m < t.len() && is_alphanumeric(#[trigger] t[m])
                &&& t.len() <= sentences(chars)[k].char_len
            },
{
    lemma_sentence_text_from(chars, 0);
}

proof fn lemma_sentence_text_from(chars: Seq<char>, s: int)
    requires
        0 <= s <= chars.len(),
    ensures
        forall|k: int|
            0 <= k < sentences_from(chars, s).len() ==> {
                let t = (#[trigger] sentences_from(chars, s)[k]).text;
                &&& t.len() > 0
                &&& !is_white_space(t[0])
                &&& !is_white_space(t.last())
                &&& exists|m: int| 0 <= m < t.len() && is_alphanumeric(#[trigger] t[m])
                &&& t.len() <= sentences_from(chars, s)[k].char_len
            },
    decreases chars.len() - s,
{
    if s < chars.len() {
        lemma_piece_end_bounds(chars, s);
        let e = piece_end(chars, s);
        lemma_sentence_text_from(chars, e);
        let piece = chars.subrange(s, e);
        let all = sentences_from(chars, s);
        let rest = sentences_from(chars, e);
        if has_content(piece) {
            assert(all == seq![sentence_view(chars, s, e)] + rest);
            crate::text::law_trim_shape(piece);
            let t = trim(piece);
            let m = choose|m: int| 0 <= m < t.len() && is_alphanumeric(#[trigger] t[m]);
            assert(0 <= m < t.len() && is_alphanumeric(t[m]));
            assert forall|k: int| 0 <= k < all.len() implies {
                let t = (#[trigger] all[k]).text;
                &&& t.len() > 0
                &&& !is_white_space(t[0])
                &&& !is_white_space(t.last())
                &&& exists|m: int| 0 <= m < t.len() && is_alphanumeric(#[trigger] t[m])
                &&& t.len() <= all[k].char_len
            } by {
                if k > 0 {
                    assert(all[k] == rest[k - 1]);
                }
            }
        } else {
            assert(all == rest);
        }
    }
}

/// Law: the words of a sentence are exactly its runs of non-whitespace
/// characters. Each word starts at a non-whitespace character that begins
/// the piece or follows whitespace, and its UTF-16 offset is the UTF-16
/// length of the text before it; every such character starts a word.
pub proof fn law_words_are_runs(chars: Seq<char>, start: int, end: int)
    requires
        0 <= start <= end <= chars.len() <= u32::MAX,
    ensures
        forall|i: int|
            0 <= i < words_in(chars, start, start, end).len() ==> {
                let j = start + (#[trigger] words_in(chars, start, start, end)[i]).char_start;
                &&& start <= j < end
                &&& !is_white_space(chars[j])
                &&& j == start || is_white_space(chars[j - 1])
                &&& words_in(chars, start, start, end)[i].utf16_offset == utf16_count(chars.take(j)) as u32
            },
        forall|j: int|
            start <= j < end && !is_white_space(#[trigger] chars[j]) && (j == start
                || is_white_space(chars[j - 1])) ==> exists|i: int|
                0 <= i < words_in(chars, start, start, end).len() && start + (#[trigger] words_in(
                    chars,
                    start,
                    start,
                    end,
                )[i]).char_start == j,
{
    lemma_words_runs_from(chars, start, start, end);
}

proof fn lemma_words_runs_from(chars: Seq<char>, start: int, j0: int, end: int)
    requires
        0 <= start <= j0 <= end <= chars.len() <= u32::MAX,
        j0 == start || j0 >= end || is_white_space(chars[j0 - 1]) || is_white_space(chars[j0]),
    ensures
        forall|i: int|
            0 <= i < words_in(chars, start, j0, end).len() ==> {
                let j = start + (#[trigger] words_in(chars, start, j0, end)[i]).char_start;
                &&& j0 <= j < end
                &&& !is_white_space(chars[j])
                &&& j == start || is_white_space(chars[j - 1])
                &&& words_in(chars, start, j0, end)[i].utf16_offset == utf16_count(chars.take(j)) as u32
            },
        forall|j: int|
            j0 <= j < end && !is_white_space(#[trigger] chars[j]) && (j == start || is_white_space(
                chars[j - 1],
            )) ==> exists|i: int|
                0 <= i < words_in(chars, start, j0, end).len() && start + (#[trigger] words_in(
                    chars,
                    start,
                    j0,
                    end,
                )[i]).char_start == j,
    decreases end - j0,
{
    let w = words_in(chars, start, j0, end);
    if j0 < end {
        if is_white_space(chars[j0]) {
            lemma_words_runs_from(chars, start, j0 + 1, end);
            assert(w == words_in(chars, start, j0 + 1, end));
        } else {
            lemma_word_end(chars, j0, end);
            let e = word_end(chars, j0, end);
            lemma_words_runs_from(chars, start, e, end);
            let rest = words_in(chars, start, e, end);
            assert(w == seq![w[0]] + rest);
            assert(w[0].char_start == j0 - start);
            assert forall|i: int| 0 <= i < w.len() implies {
                let j = start + (#[trigger] w[i]).char_start;
                &&& j0 <= j < end
                &&& !is_white_space(chars[j])
                &&& j == start || is_white_space(chars[j - 1])
                &&& w[i].utf16_offset == utf16_count(chars.take(j)) as u32
            } by {
                if i > 0 {
                    assert(w[i] == rest[i - 1]);
                }
            }
            assert forall|j: int|
                j0 <= j < end && !is_white_space(#[trigger] chars[j]) && (j == start
                    || is_white_space(chars[j - 1])) implies exists|i: int|
                0 <= i < w.len() && start + (#[trigger] w[i]).char_start == j by {
                if j == j0 {
                    assert(start + w[0].char_start == j);
                } else if j < e {
                    assert(!is_white_space(chars[j - 1]));
                } else {
                    if j == e {
                        assert(is_white_space(chars[e]));
                    }
                    let i = choose|i: int| 0 <= i < rest.len() && start + (#[trigger] rest[i]).char_start == j;
                    assert(w[i + 1] == rest[i]);
                }
            }
        }
    }
}

/// Builds the sentence for `chars[start..end]`: its trimmed text, and for
/// each word its UTF-16 offset in `chars`, its UTF-16 length and its
/// character offset from `start`.
pub fn make_sentence(chars: &[char], start: usize, end: usize) -> (s: Sentence)
    requires
        start <= end <= chars@.len(),
        chars@.len() <= u32::MAX,
    ensures
        s@ == sentence_view(chars@, start as int, end as int),
        sentence_wf(s@),
{
    let ghost cs = chars@;
    let mut utf16_before: u64 = 0;
    let mut k: usize = 0;
    while k < start
        invariant
            cs == chars@,
            k <= start <= end <= cs.len() <= u32::MAX,
            utf16_before == utf16_count(cs.take(k as int)),
        decreases start - k,
    {
        proof {
            lemma_utf16_count_take(cs, k as int);
            lemma_utf16_count_bounds(cs.take(k + 1));
        }
        utf16_before = utf16_before + utf16_len(chars[k]) as u64;
        k = k + 1;
    }
    let mut words: Vec<Word> = Vec::new();
    let mut u16_off: u64 = utf16_before;
    let mut j: usize = start;
    while j < end
        invariant
            cs == chars@,
            start <= j <= end <= cs.len() <= u32::MAX,
            u16_off == utf16_count(cs.take(j as int)),
            words@ + words_in(cs, start as int, j as int, end as int) == words_in(
                cs,
                start as int,
                start as int,
                end as int,
            ),
        decreases end - j,
    {
        if char_is_whitespace(chars[j]) {
            proof {
                lemma_utf16_count_take(cs, j as int);
                lemma_utf16_count_bounds(cs.take(j + 1));
            }
            u16_off = u16_off + utf16_len(chars[j]) as u64;
            j = j + 1;
        } else {
            let ghost j0 = j as int;
            let word_start_u16 = u16_off;
            let word_start_char = j - start;
            let mut word_u16_len: u64 = 0;
            proof {
                lemma_word_end(cs, j0, end as int);
            }
            assert(cs.subrange(j0, j0) =~= Seq::<char>::empty());
            while j < end && !char_is_whitespace(chars[j])
                invariant
                    cs == chars@,
                    start <= j0 <= j <= end <= cs.len() <= u32::MAX,
                    word_end(cs, j0, end as int) == word_end(cs, j as int, end as int),
                    u16_off == utf16_count(cs.take(j as int)),
                    word_u16_len == utf16_count(cs.subrange(j0, j as int)),
                decreases end - j,
            {
                proof {
                    lemma_utf16_count_take(cs, j as int);
                    lemma_utf16_count_bounds(cs.take(j + 1));
                    lemma_utf16_count_range(cs, j0, j as int);
                    lemma_utf16_count_bounds(cs.subrange(j0, j + 1));
                }
                let w = utf16_len(chars[j]) as u64;
                word_u16_len = word_u16_len + w;
                u16_off = u16_off + w;
                j = j + 1;
            }
            let word = Word {
                utf16_offset: word_start_u16 as u32,
                utf16_len: word_u16_len as u32,
                char_start: word_start_char,
            };
            assert(word_end(cs, j as int, end as int) == j as int);
            assert(words_in(cs, start as int, j0, end as int) == seq![word] + words_in(
                cs,
                start as int,
                j as int,
                end as int,
            ));
            let ghost before = words@;
            words.push(word);
            assert(before + words_in(cs, start as int, j0, end as int) =~= words@ + words_in(
                cs,
                start as int,
                j as int,
                end as int,
            ));
        }
    }
    assert(words@ =~= words_in(cs, start as int, start as int, end as int));
    let piece = copy_range(chars, start, end);
    let t = trim_chars(piece.as_slice());
    let text = string_of(t.as_slice());
    let s = Sentence { text, words, char_len: end - start };
    proof {
        lemma_words_in_order(cs, start as int, start as int, end as int);
    }
    s
}

/// The words found from `j` on start at or after `j`, before `end`, in
/// strictly increasing order.
pub proof fn lemma_words_in_order(chars: Seq<char>, start: int, j: int, end: int)
    requires
        0 <= start <= j <= end <= chars.len() <= u32::MAX,
    ensures
        forall|i: int|
            0 <= i < words_in(chars, start, j, end).len() ==> j - start <= (#[trigger] words_in(
                chars,
                start,
                j,
                end,
            )[i]).char_start < end - start,
        forall|i: int, k: int|
            0 <= i < k < words_in(chars, start, j, end).len() ==> (#[trigger] words_in(
                chars,
                start,
                j,
                end,
            )[i]).char_start < (#[trigger] words_in(chars, start, j, end)[k]).char_start,
    decreases end - j,
{
    if j < end {
        if is_white_space(chars[j]) {
            lemma_words_in_order(chars, start, j + 1, end);
            assert(words_in(chars, start, j, end) == words_in(chars, start, j + 1, end));
        } else {
            lemma_word_end(chars, j, end);
            let e = word_end(chars, j, end);
            lemma_words_in_order(chars, start, e, end);
            let w = words_in(chars, start, j, end);
            let rest = words_in(chars, start, e, end);
            assert(w == seq![w[0]] + rest);
            assert forall|i: int| 0 <= i < w.len() implies j - start <= (#[trigger] w[i]).char_start
                < end - start by {
                if i > 0 {
                    assert(w[i] == rest[i - 1]);
                }
            }
            assert forall|i: int, k: int| 0 <= i < k < w.len() implies (#[trigger] w[i]).char_start
                < (#[trigger] w[k]).char_start by {
                assert(w[k] == rest[k - 1]);
                if i > 0 {
                    assert(w[i] == rest[i - 1]);
                }
            }
        }
    }
}

/// Splits `chars` into sentences (see [`sentences`]).
pub fn split_chars(chars: &[char]) -> (r: Vec<Sentence>)
    requires
        chars@.len() <= u32::MAX,
    ensures
        views(r@) == sentences(chars@),
        forall|i: int| 0 <= i < r@.len() ==> sentence_wf(#[trigger] r@[i]@),
{
    let ghost cs = chars@;
    let n = chars.len();
    let mut out: Vec<Sentence> = Vec::new();
    let mut start: usize = 0;
    while start < n
        invariant
            cs == chars@,
            n == cs.len() <= u32::MAX,
            start <= n,
            views(out@) + sentences_from(cs, start as int) == sentences_from(cs, 0),
            forall|i: int| 0 <= i < out@.len() ==> sentence_wf(#[trigger] out@[i]@),
        decreases n - start,
    {
        let e = find_piece_end(chars, start);
        let ghost before = views(out@);
        if piece_has_content(chars, start, e) {
            let s = make_sentence(chars, start, e);
            out.push(s);
            assert(views(out@) =~= before.push(sentence_view(cs, start as int, e as int)));
            assert(views(out@) + sentences_from(cs, e as int) =~= before + sentences_from(
                cs,
                start as int,
            ));
        } else {
            assert(sentences_from(cs, start as int) == sentences_from(cs, e as int));
        }
        start = e;
    }
    assert(views(out@) =~= views(out@) + sentences_from(cs, start as int));
    out
}

/// Splits `text` on sentence-final punctuation, keeping the terminator with
/// its sentence and dropping pieces with no letter or digit.
pub fn split_sentences(text: &str) -> (r: Vec<Sentence>)
    requires
        text@.len() <= u32::MAX,
    ensures
        views(r@) == sentences(text@),
        forall|i: int| 0 <= i < r@.len() ==> sentence_wf(#[trigger] r@[i]@),
{
    let chars = chars_of(text);
    split_chars(chars.as_slice())
}

} // verus!
