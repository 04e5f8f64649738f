//! Azure Speech request building and response handling: the SSML body, the
//! HTTP host and headers, the status check, and decoding of the returned
//! 24 kHz / 16-bit / mono little-endian PCM.

use vstd::prelude::*;

use crate::text::{
    occurs_at, starts_with,
    chars_of, decimal, push_all, push_decimal, push_str, string_of, utf8_lossy,
    utf8_to_string_lossy,
};

verus! {

/// Output sample rate, fixed by the `raw-24khz-16bit-mono-pcm` output format.
pub const SAMPLE_RATE: u32 = 24000;

/// Path of the synthesis endpoint on the regional host.
pub const TTS_PATH: &'static str = "/cognitiveservices/v1";

/// Most characters of an error body kept in an HTTP error.
pub const ERROR_SNIPPET_CHARS: usize = 300;

/// The escape sequence of one character inside an SSML element.
pub open spec fn escape_char(c: char) -> Seq<char> {
    if c == '&' {
        seq!['&', 'a', 'm', 'p', ';']
    } else if c == '<' {
        seq!['&', 'l', 't', ';']
    } else if c == '>' {
        seq!['&', 'g', 't', ';']
    } else if c == '"' {
        seq!['&', 'q', 'u', 'o', 't', ';']
    } else if c == '\'' {
        seq!['&', 'a', 'p', 'o', 's', ';']
    } else {
        seq![c]
    }
}

/// `s` with each of `& < > " '` replaced by its XML entity.
pub open spec fn xml_escaped(s: Seq<char>) -> Seq<char>
    decreases s.len(),
{
    if s.len() == 0 {
        Seq::empty()
    } else {
        xml_escaped(s.drop_last()) + escape_char(s.last())
    }
}

/// Minimal XML escaping for text placed inside an SSML element.
pub fn xml_escape(s: &str) -> (r: String)
    ensures
        r@ == xml_escaped(s@),
{
    let cs = chars_of(s);
    let mut out: Vec<char> = Vec::new();
    let mut i: usize = 0;
    while i < cs.len()
        invariant
            cs@ == s@,
            i <= cs@.len(),
            out@ == xml_escaped(cs@.take(i as int)),
        decreases cs@.len() - i,
    {
        let c = cs[i];
        if c == '&' {
            out.push('&');
            out.push('a');
            out.push('m');
            out.push('p');
            out.push(';');
        } else if c == '<' {
            out.push('&');
            out.push('l');
            out.push('t');
            out.push(';');
        } else if c == '>' {
            out.push('&');
            out.push('g');
            out.push('t');
            out.push(';');
        } else if c == '"' {
            out.push('&');
            out.push('q');
            out.push('u');
            out.push('o');
            out.push('t');
            out.push(';');
        } else if c == '\'' {
            out.push('&');
            out.push('a');
            out.push('p');
            out.push('o');
            out.push('s');
            out.push(';');
        } else {
            out.push(c);
        }
        assert(cs@.take(i + 1).drop_last() =~= cs@.take(i as int));
        assert(out@ =~= xml_escaped(cs@.take(i as int)) + escape_char(c));
        i = i + 1;
    }
    assert(cs@.take(cs@.len() as int) =~= cs@);
    string_of(out.as_slice())
}

/// `v[i..]` cut before the `dashes_left`-th further `-`, or all of `v` if
/// there are not that many.
pub open spec fn cut_before_dash(v: Seq<char>, i: int, dashes_left: nat) -> Seq<char>
    decreases v.len() - i,
{
    if i < 0 || i >= v.len() {
        v
    } else if v[i] == '-' && dashes_left <= 1 {
        v.take(i)
    } else if v[i] == '-' {
        cut_before_dash(v, i + 1, (dashes_left - 1) as nat)
    } else {
        cut_before_dash(v, i + 1, dashes_left)
    }
}

/// The SSML language of a voice short name: its first two `-`-separated
/// fields (`en-US` for `en-US-ChristopherNeural`), or `en-US` when that is
/// empty.
pub open spec fn ssml_lang_of(voice: Seq<char>) -> Seq<char> {
    let l = cut_before_dash(voice, 0, 2);
    if l.len() == 0 {
        seq!['e', 'n', '-', 'U', 'S']
    } else {
        l
    }
}

/// The language tag for a voice short name (see [`ssml_lang_of`]).
pub fn ssml_lang(voice: &str) -> (r: Vec<char>)
    ensures
        r@ == ssml_lang_of(voice@),
{
    let v = chars_of(voice);
    let n = v.len();
    let mut i: usize = 0;
    let mut dashes_left: u64 = 2;
    let mut cut: usize = n;
    while i < n
        invariant_except_break
            cut == n,
        invariant
            v@ == voice@,
            n == v@.len(),
            i <= n,
            1 <= dashes_left <= 2,
            cut_before_dash(v@, 0, 2) == cut_before_dash(v@, i as int, dashes_left as nat),
        ensures
            cut < n && cut_before_dash(v@, 0, 2) == v@.take(cut as int) || cut == n
                && cut_before_dash(v@, 0, 2) == v@,
        decreases n - i,
    {
        if v[i] == '-' {
            if dashes_left <= 1 {
                cut = i;
                break;
            }
            dashes_left = dashes_left - 1;
        }
        i = i + 1;
    }
    let mut l: Vec<char> = Vec::new();
    let mut k: usize = 0;
    let end = if cut < n { cut } else { n };
    while k < end
        invariant
            end <= n == v@.len(),
            k <= end,
            l@ == v@.take(k as int),
        decreases end - k,
    {
        l.push(v[k]);
        assert(v@.take(k + 1) =~= v@.take(k as int).push(v@[k as int]));
        k = k + 1;
    }
    assert(cut_before_dash(v@, 0, 2) =~= l@) by {
        if cut == n {
            assert(v@.take(n as int) =~= v@);
        }
    }
    if l.len() == 0 {
        let mut d: Vec<char> = Vec::new();
        d.push('e');
        d.push('n');
        d.push('-');
        d.push('U');
        d.push('S');
        assert(d@ =~= seq!['e', 'n', '-', 'U', 'S']);
        d
    } else {
        l
    }
}

/// A speaking rate relative to normal, in hundredths of a percent, with its
/// sign kept apart so that a negative zero can be told apart.
#[derive(Clone, Copy, Debug, PartialEq, Eq, Structural)]
pub struct RatePercent {
    pub negative: bool,
    pub hundredths: u64,
}

/// The rate as SSML writes it: a sign, the whole percent, a point and two
/// decimals (`+20.00`, `-12.50`).
pub open spec fn rate_text(r: RatePercent) -> Seq<char> {
    seq![if r.negative { '-' } else { '+' }] + decimal((r.hundredths / 100) as nat) + seq![
        '.',
        crate::text::digit_char(((r.hundredths % 100) / 10) as int),
        crate::text::digit_char((r.hundredths % 10) as int),
    ]
}

/// Appends the rate text to `out`.
pub fn push_rate(out: &mut Vec<char>, r: RatePercent)
    ensures
        final(out)@ == old(out)@ + rate_text(r),
{
    if r.negative {
        out.push('-');
    } else {
        out.push('+');
    }
    push_decimal(out, r.hundredths / 100);
    out.push('.');
    let tens: u8 = ((r.hundredths % 100) / 10) as u8;
    let ones: u8 = (r.hundredths % 10) as u8;
    out.push((48u8 + tens) as char);
    out.push((48u8 + ones) as char);
    assert(final(out)@ =~= old(out)@ + rate_text(r));
}

/// The SSML document for one piece of text: voice and language are written
/// as given, the text is escaped.
pub open spec fn ssml_of(voice: Seq<char>, text: Seq<char>, rate: RatePercent) -> Seq<char> {
    "<speak version='1.0' xml:lang='"@ + ssml_lang_of(voice) + "'><voice name='"@ + voice
        + "'><prosody rate='"@ + rate_text(rate) + "%'>"@ + xml_escaped(text)
        + "</prosody></voice></speak>"@
}

/// Builds the SSML body. `voice` is an Azure short name (e.g.
/// `en-US-ChristopherNeural`); `rate` is the relative SSML rate.
pub fn build_ssml(voice: &str, text: &str, rate: RatePercent) -> (r: String)
    ensures
        r@ == ssml_of(voice@, text@, rate),
{
    let mut out: Vec<char> = Vec::new();
    push_str(&mut out, "<speak version='1.0' xml:lang='");
    let lang = ssml_lang(voice);
    push_all(&mut out, lang.as_slice());
    push_str(&mut out, "'><voice name='");
    push_str(&mut out, voice);
    push_str(&mut out, "'><prosody rate='");
    push_rate(&mut out, rate);
    push_str(&mut out, "%'>");
    let esc = xml_escape(text);
    push_str(&mut out, esc.as_str());
    push_str(&mut out, "</prosody></voice></speak>");
    assert(out@ =~= ssml_of(voice@, text@, rate));
    string_of(out.as_slice())
}

/// Why a synthesis request could not be made or was refused.
#[derive(Debug)]
pub enum SynthError {
    /// The voice token holds no region or no key.
    NotConfigured,
    /// The service answered with a status other than 200; `snippet` holds the
    /// start of its body.
    Http { status: u32, snippet: String },
}

/// An HTTPS POST to make: host, header block and body.
pub struct SynthRequest {
    pub host: String,
    pub headers: String,
    pub body: Vec<u8>,
}

/// The regional host of the speech service.
pub open spec fn host_of(region: Seq<char>) -> Seq<char> {
    region + ".tts.speech.microsoft.com"@
}

/// The request headers: the subscription key, SSML content, raw 24 kHz PCM
/// output and the user agent, separated by CR LF.
pub open spec fn headers_of(key: Seq<char>) -> Seq<char> {
    "Ocp-Apim-Subscription-Key: "@ + key + "\r\nContent-Type: application/ssml+xml\r\nX-Microsoft-OutputFormat: raw-24khz-16bit-mono-pcm\r\nUser-Agent: azure-sapi"@
}

/// The synthesis request for one piece of text, or `NotConfigured` when the
/// region or the key is empty.
pub fn synthesis_request(region: &str, key: &str, voice: &str, text: &str, rate: RatePercent) -> (r: Result<SynthRequest, SynthError>)
    ensures
        r is Err <==> (region@.len() == 0 || key@.len() == 0),
        r matches Err(e) ==> e is NotConfigured,
        r matches Ok(q) ==> {
            &&& q.host@ == host_of(region@)
            &&& q.headers@ == headers_of(key@)
            &&& q.body@ == vstd::utf8::encode_utf8(ssml_of(voice@, text@, rate))
        },
{
    if region.is_empty() || key.is_empty() {
        return Err(SynthError::NotConfigured);
    }
    let ssml = build_ssml(voice, text, rate);
    let body = vstd::slice::slice_to_vec(ssml.as_str().as_bytes());
    let mut h: Vec<char> = Vec::new();
    push_str(&mut h, region);
    push_str(&mut h, ".tts.speech.microsoft.com");
    let host = string_of(h.as_slice());
    let mut hd: Vec<char> = Vec::new();
    push_str(&mut hd, "Ocp-Apim-Subscription-Key: ");
    push_str(&mut hd, key);
    push_str(
        &mut hd,
        "\r\nContent-Type: application/ssml+xml\r\nX-Microsoft-OutputFormat: raw-24khz-16bit-mono-pcm\r\nUser-Agent: azure-sapi",
    );
    let headers = string_of(hd.as_slice());
    Ok(SynthRequest { host, headers, body })
}

/// The first 300 characters of a body decoded as UTF-8 with invalid
/// sequences replaced.
pub open spec fn error_snippet(body: Seq<u8>) -> Seq<char> {
    let d = utf8_lossy(body);
    d.take(if d.len() < 300 { d.len() as int } else { 300 })
}

/// Accepts a response: status 200 yields its body, any other status an
/// `Http` error with the first 300 characters of the body, decoded as
/// UTF-8 with invalid sequences replaced.
pub fn check_response(status: u32, body: Vec<u8>) -> (r: Result<Vec<u8>, SynthError>)
    ensures
        status == 200 ==> r == Ok::<Vec<u8>, SynthError>(body),
        status != 200 ==> (r matches Err(SynthError::Http { status: s, snippet }) && s == status
            && snippet@ == error_snippet(body@)),
{
    if status == 200 {
        return Ok(body);
    }
    let msg = utf8_to_string_lossy(body.as_slice());
    let cs = chars_of(msg.as_str());
    let n = if cs.len() < ERROR_SNIPPET_CHARS {
        cs.len()
    } else {
        ERROR_SNIPPET_CHARS
    };
    let snippet_chars = crate::text::copy_range(cs.as_slice(), 0, n);
    assert(snippet_chars@ =~= cs@.take(n as int));
    let snippet = string_of(snippet_chars.as_slice());
    Err(SynthError::Http { status, snippet })
}

impl SynthError {
    /// The error as a line of text for the log.
    pub fn message(&self) -> (m: String)
        ensures
            self is NotConfigured ==> m@ == "Azure region/key not configured on the voice token"@,
            self matches SynthError::Http { status, snippet } ==> m@ == "Azure HTTP "@ + decimal(
                status as nat,
            ) + ": "@ + snippet@,
    {
        match self {
            SynthError::NotConfigured => {
                let mut v: Vec<char> = Vec::new();
                push_str(&mut v, "Azure region/key not configured on the voice token");
                assert(v@ =~= "Azure region/key not configured on the voice token"@);
                string_of(v.as_slice())
            },
            SynthError::Http { status, snippet } => {
                let mut v: Vec<char> = Vec::new();
                push_str(&mut v, "Azure HTTP ");
                push_decimal(&mut v, *status as u64);
                push_str(&mut v, ": ");
                push_str(&mut v, snippet.as_str());
                assert(v@ =~= "Azure HTTP "@ + decimal(*status as nat) + ": "@ + snippet@);
                string_of(v.as_slice())
            },
        }
    }
}

/// The signed 16-bit sample whose little-endian bytes are `lo`, `hi`.
pub open spec fn sample_le(lo: u8, hi: u8) -> int {
    if hi < 128 {
        hi * 256 + lo
    } else {
        hi * 256 + lo - 65536
    }
}

/// Decodes little-endian 16-bit PCM into samples; a trailing odd byte is
/// ignored.
pub fn decode_pcm16(pcm: &[u8]) -> (r: Vec<i16>)
    ensures
        r@.len() == pcm@.len() / 2,
        forall|i: int| 0 <= i < r@.len() ==> #[trigger] r@[i] == sample_le(pcm@[2 * i], pcm@[2 * i + 1]),
{
    let len = pcm.len();
    let n = len / 2;
    let mut out: Vec<i16> = Vec::new();
    let mut i: usize = 0;
    while i < n
        invariant
            len == pcm@.len(),
            n == pcm@.len() / 2,
            i <= n,
            out@.len() == i,
            forall|k: int| 0 <= k < i ==> #[trigger] out@[k] == sample_le(pcm@[2 * k], pcm@[2 * k + 1]),
        decreases n - i,
    {
        assert(2 * i + 1 < pcm@.len()) by (nonlinear_arith)
            requires
                i < n,
                n == pcm@.len() / 2,
        ;
        let lo = pcm[2 * i];
        let hi = pcm[2 * i + 1];
        let v: i32 = if hi < 128 {
            (hi as i32) * 256 + (lo as i32)
        } else {
            (hi as i32) * 256 + (lo as i32) - 65536
        };
        out.push(v as i16);
        i = i + 1;
    }
    out
}

/// The low byte of a sample in little-endian two's complement.
pub open spec fn sample_lo(s: i16) -> int {
    (if s < 0 { s + 65536 } else { s as int }) % 256
}

/// The high byte of a sample in little-endian two's complement.
pub open spec fn sample_hi(s: i16) -> int {
    (if s < 0 { s + 65536 } else { s as int }) / 256
}

/// Encodes samples as little-endian 16-bit PCM, two bytes each.
pub fn encode_pcm16(samples: &[i16]) -> (r: Vec<u8>)
    requires
        samples@.len() * 2 <= usize::MAX,
    ensures
        r@.len() == samples@.len() * 2,
        forall|i: int|
            0 <= i < samples@.len() ==> r@[2 * i] == sample_lo(#[trigger] samples@[i]) && r@[2 * i
                + 1] == sample_hi(samples@[i]),
{
    let n = samples.len();
    let mut out: Vec<u8> = Vec::new();
    let mut i: usize = 0;
    while i < n
        invariant
            n == samples@.len(),
            n * 2 <= usize::MAX,
            i <= n,
            out@.len() == 2 * i,
            forall|k: int|
                0 <= k < i ==> out@[2 * k] == sample_lo(#[trigger] samples@[k]) && out@[2 * k + 1]
                    == sample_hi(samples@[k]),
        decreases n - i,
    {
        let s = samples[i];
        let u: u32 = if s < 0 {
            (s as i32 + 65536) as u32
        } else {
            s as u32
        };
        out.push((u % 256) as u8);
        out.push((u / 256) as u8);
        i = i + 1;
    }
    out
}

/// Law: decoding what was encoded gives back the samples.
pub proof fn law_pcm_roundtrip(s: i16)
    ensures
        0 <= sample_lo(s) < 256,
        0 <= sample_hi(s) < 256,
        sample_le(sample_lo(s) as u8, sample_hi(s) as u8) == s,
{
}

/// The samples of a response: the decoded body when the status is 200, the
/// error of [`check_response`] otherwise.
pub fn response_samples(status: u32, body: Vec<u8>) -> (r: Result<Vec<i16>, SynthError>)
    ensures
        status == 200 ==> (r matches Ok(v) && v@.len() == body@.len() / 2 && forall|i: int|
            0 <= i < v@.len() ==> #[trigger] v@[i] == sample_le(body@[2 * i], body@[2 * i + 1])),
        status != 200 ==> (r matches Err(SynthError::Http { status: s, snippet }) && s == status
            && snippet@ == error_snippet(body@)),
{
    match check_response(status, body) {
        Ok(pcm) => Ok(decode_pcm16(pcm.as_slice())),
        Err(e) => Err(e),
    }
}

/// The five entities that escaping writes, with the character each stands
/// for.
pub open spec fn entity_amp() -> Seq<char> {
    seq!['&', 'a', 'm', 'p', ';']
}

pub open spec fn entity_lt() -> Seq<char> {
    seq!['&', 'l', 't', ';']
}

pub open spec fn entity_gt() -> Seq<char> {
    seq!['&', 'g', 't', ';']
}

pub open spec fn entity_quot() -> Seq<char> {
    seq!['&', 'q', 'u', 'o', 't', ';']
}

pub open spec fn entity_apos() -> Seq<char> {
    seq!['&', 'a', 'p', 'o', 's', ';']
}

/// Decodes, left to right, the entities `&amp;` `&lt;` `&gt;` `&quot;`
/// `&apos;` to `&` `<` `>` `"` `'`; everything else stands for itself.
pub open spec fn xml_unescaped(s: Seq<char>) -> Seq<char>
    decreases s.len(),
{
    if s.len() == 0 {
        Seq::empty()
    } else if starts_with(s, entity_amp()) {
        seq!['&'] + xml_unescaped(s.skip(5))
    } else if starts_with(s, entity_lt()) {
        seq!['<'] + xml_unescaped(s.skip(4))
    } else if starts_with(s, entity_gt()) {
        seq!['>'] + xml_unescaped(s.skip(4))
    } else if starts_with(s, entity_quot()) {
        seq!['"'] + xml_unescaped(s.skip(6))
    } else if starts_with(s, entity_apos()) {
        seq!['\''] + xml_unescaped(s.skip(6))
    } else {
        seq![s[0]] + xml_unescaped(s.skip(1))
    }
}

/// Whether one of the five entities starts at `i` in `s`.
pub open spec fn entity_at(s: Seq<char>, i: int) -> bool {
    ||| occurs_at(s, entity_amp(), i)
    ||| occurs_at(s, entity_lt(), i)
    ||| occurs_at(s, entity_gt(), i)
    ||| occurs_at(s, entity_quot(), i)
    ||| occurs_at(s, entity_apos(), i)
}

/// Whether `c` is one of the five characters that escaping replaces.
pub open spec fn is_xml_special(c: char) -> bool {
    c == '&' || c == '<' || c == '>' || c == '"' || c == '\''
}

proof fn lemma_escaped_concat(a: Seq<char>, b: Seq<char>)
    ensures
        xml_escaped(a + b) == xml_escaped(a) + xml_escaped(b),
    decreases b.len(),
{
    if b.len() == 0 {
        assert(a + b =~= a);
        assert(xml_escaped(a) + xml_escaped(b) =~= xml_escaped(a));
    } else {
        lemma_escaped_concat(a, b.drop_last());
        assert((a + b).drop_last() =~= a + b.drop_last());
        assert((a + b).last() == b.last());
        assert(xml_escaped(a + b) =~= xml_escaped(a) + xml_escaped(b));
    }
}

proof fn lemma_escaped_front(s: Seq<char>)
    requires
        s.len() > 0,
    ensures
        xml_escaped(s) == escape_char(s[0]) + xml_escaped(s.drop_first()),
{
    assert(s =~= seq![s[0]] + s.drop_first());
    lemma_escaped_concat(seq![s[0]], s.drop_first());
    assert(seq![s[0]].drop_last() =~= Seq::<char>::empty());
    assert(xml_escaped(Seq::<char>::empty()) =~= Seq::<char>::empty());
    assert(seq![s[0]].last() == s[0]);
    assert(xml_escaped(seq![s[0]]) =~= escape_char(s[0]));
}

proof fn lemma_not_prefix(x: Seq<char>, p: Seq<char>, i: int)
    requires
        0 <= i < p.len(),
        i < x.len(),
        x[i] != p[i],
    ensures
        !starts_with(x, p),
{
    if p.len() <= x.len() {
        assert(x.subrange(0, p.len() as int)[i] == x[i]);
    }
}

proof fn lemma_prefix(e: Seq<char>, r: Seq<char>)
    ensures
        starts_with(e + r, e),
        (e + r).skip(e.len() as int) == r,
{
    assert((e + r).subrange(0, e.len() as int) =~= e);
    assert((e + r).skip(e.len() as int) =~= r);
}

/// Law: escaping can be undone. Decoding the five entities in escaped text
/// gives back the text; every `&` in escaped text begins one of the five
/// entities; and text with none of `& < > " '` is left as it is.
pub proof fn law_escape_roundtrip(s: Seq<char>)
    ensures
        xml_unescaped(xml_escaped(s)) == s,
        forall|i: int|
            0 <= i < xml_escaped(s).len() && #[trigger] xml_escaped(s)[i] == '&' ==> entity_at(
                xml_escaped(s),
                i,
            ),
        (forall|i: int| 0 <= i < s.len() ==> !is_xml_special(#[trigger] s[i])) ==> xml_escaped(s)
            == s,
    decreases s.len(),
{
    if s.len() == 0 {
        assert(xml_escaped(s) =~= s);
    } else {
        let c = s[0];
        let rest = s.drop_first();
        law_escape_roundtrip(rest);
        lemma_escaped_front(s);
        let e = escape_char(c);
        let r = xml_escaped(rest);
        let x = e + r;
        assert(xml_escaped(s) == x);
        lemma_prefix(e, r);
        // Decoding the first character's escape.
        if c == '&' {
            assert(e == entity_amp());
        } else if c == '<' {
            lemma_not_prefix(x, entity_amp(), 1);
        } else if c == '>' {
            lemma_not_prefix(x, entity_amp(), 1);
            lemma_not_prefix(x, entity_lt(), 1);
        } else if c == '"' {
            lemma_not_prefix(x, entity_amp(), 1);
            lemma_not_prefix(x, entity_lt(), 1);
            lemma_not_prefix(x, entity_gt(), 1);
        } else if c == '\'' {
            lemma_not_prefix(x, entity_amp(), 2);
            lemma_not_prefix(x, entity_lt(), 1);
            lemma_not_prefix(x, entity_gt(), 1);
            lemma_not_prefix(x, entity_quot(), 1);
        } else {
            lemma_not_prefix(x, entity_amp(), 0);
            lemma_not_prefix(x, entity_lt(), 0);
            lemma_not_prefix(x, entity_gt(), 0);
            lemma_not_prefix(x, entity_quot(), 0);
            lemma_not_prefix(x, entity_apos(), 0);
        }
        assert(xml_unescaped(x) =~= s);
        // Every '&' begins an entity.
        assert forall|i: int| 0 <= i < x.len() && #[trigger] x[i] == '&' implies entity_at(x, i) by {
            if i < e.len() {
                assert(x[i] == e[i]);
                assert(i == 0);
                assert(x.subrange(0, e.len() as int) =~= e);
                if c == '&' {
                    assert(occurs_at(x, entity_amp(), 0));
                } else if c == '<' {
                    assert(occurs_at(x, entity_lt(), 0));
                } else if c == '>' {
                    assert(occurs_at(x, entity_gt(), 0));
                } else if c == '"' {
                    assert(occurs_at(x, entity_quot(), 0));
                } else {
                    assert(occurs_at(x, entity_apos(), 0));
                }
            } else {
                assert(x[i] == r[i - e.len()]);
                let j = i - e.len();
                assert(entity_at(r, j));
                assert forall|p: Seq<char>| occurs_at(r, p, j) implies occurs_at(x, p, i) by {
                    assert(x.subrange(i, i + p.len()) =~= r.subrange(j, j + p.len()));
                }
            }
        }
        if forall|i: int| 0 <= i < s.len() ==> !is_xml_special(#[trigger] s[i]) {
            assert(!is_xml_special(s[0]));
            assert forall|i: int| 0 <= i < rest.len() implies !is_xml_special(#[trigger] rest[i]) by {
                assert(rest[i] == s[i + 1]);
            }
            assert(x =~= s);
        }
    }
}

/// Law: escaped text holds none of `<`, `>`, `"` and `'`, so it cannot close
/// or open an SSML element or attribute.
pub proof fn law_escaped_text_is_inert(s: Seq<char>)
    ensures
        forall|i: int|
            0 <= i < xml_escaped(s).len() ==> {
                let c = #[trigger] xml_escaped(s)[i];
                c != '<' && c != '>' && c != '"' && c != '\''
            },
    decreases s.len(),
{
    if s.len() > 0 {
        law_escaped_text_is_inert(s.drop_last());
        let a = xml_escaped(s.drop_last());
        let b = escape_char(s.last());
        assert(xml_escaped(s) == a + b);
        assert forall|i: int| 0 <= i < xml_escaped(s).len() implies {
            let c = #[trigger] xml_escaped(s)[i];
            c != '<' && c != '>' && c != '"' && c != '\''
        } by {
            if i < a.len() {
                assert(xml_escaped(s)[i] == a[i]);
            } else {
                assert(xml_escaped(s)[i] == b[i - a.len()]);
            }
        }
    }
}

/// Law: every byte pair decodes to a sample in the 16-bit range, and the
/// sample determines the pair: decoding loses nothing.
pub proof fn law_sample_roundtrip(lo: u8, hi: u8)
    ensures
        -32768 <= sample_le(lo, hi) <= 32767,
        sample_le(lo, hi) % 65536 == hi * 256 + lo,
        forall|lo2: u8, hi2: u8| #[trigger] sample_le(lo2, hi2) == sample_le(lo, hi) ==> lo2 == lo && hi2 == hi,
{
    assert forall|lo2: u8, hi2: u8| #[trigger] sample_le(lo2, hi2) == sample_le(lo, hi) implies lo2 == lo
        && hi2 == hi by {
        assert(sample_le(lo2, hi2) % 65536 == hi2 * 256 + lo2);
    }
}

/// No two `-` in `s[i..k]`.
pub open spec fn at_most_one_dash(s: Seq<char>) -> bool {
    forall|p: int, q: int| 0 <= p < q < s.len() ==> !(s[p] == '-' && s[q] == '-')
}

proof fn lemma_cut_before_dash(v: Seq<char>, i: int, d: nat) -> (k: int)
    requires
        0 <= i <= v.len(),
        1 <= d <= 2,
    ensures
        i <= k <= v.len(),
        cut_before_dash(v, i, d) == v.take(k),
        k < v.len() ==> v[k] == '-',
        d == 1 ==> forall|p: int| i <= p < k ==> v[p] != '-',
        d == 2 ==> forall|p: int, q: int| i <= p < q < k ==> !(v[p] == '-' && v[q] == '-'),
    decreases v.len() - i,
{
    if i == v.len() {
        assert(v.take(v.len() as int) =~= v);
        v.len() as int
    } else if v[i] == '-' && d <= 1 {
        i
    } else {
        let d2: nat = if v[i] == '-' {
            (d - 1) as nat
        } else {
            d
        };
        assert(cut_before_dash(v, i, d) == cut_before_dash(v, i + 1, d2));
        let k = lemma_cut_before_dash(v, i + 1, d2);
        if d == 2 {
            assert forall|p: int, q: int| i <= p < q < k implies !(v[p] == '-' && v[q] == '-') by {
                if p == i && v[i] == '-' {
                    assert(v[q] != '-');
                }
            }
        }
        k
    }
}

/// Law: the SSML language is `en-US` or a non-empty prefix of the voice
/// name with at most one `-`, ending at the end of the name or just before
/// its second `-`.
pub proof fn law_ssml_lang_prefix(voice: Seq<char>)
    ensures
        ssml_lang_of(voice) == seq!['e', 'n', '-', 'U', 'S'] || ({
            let l = ssml_lang_of(voice);
            &&& 0 < l.len() <= voice.len()
            &&& l == voice.take(l.len() as int)
            &&& at_most_one_dash(l)
            &&& l.len() < voice.len() ==> voice[l.len() as int] == '-'
        }),
{
    let k = lemma_cut_before_dash(voice, 0, 2);
    let l = cut_before_dash(voice, 0, 2);
    if l.len() > 0 {
        assert(l =~= voice.take(l.len() as int));
    }
}

} // verus!
