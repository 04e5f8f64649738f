use azure_sapi::azure::{
    build_ssml, check_response, decode_pcm16, encode_pcm16, response_samples, ssml_lang,
    synthesis_request, xml_escape, RatePercent, SynthError, SAMPLE_RATE, TTS_PATH,
};

fn lang(v: &str) -> String {
    ssml_lang(v).into_iter().collect()
}

#[test]
fn escapes_the_five_xml_characters() {
    assert_eq!(xml_escape("a & b < c > d \" e ' f"), "a &amp; b &lt; c &gt; d &quot; e &apos; f");
    assert_eq!(xml_escape("plain"), "plain");
    assert_eq!(xml_escape(""), "");
}

#[test]
fn law_escaped_text_is_inert_on_examples() {
    for s in ["<a href='x'>\"&\"</a>", "''''", "&amp;"] {
        let e = xml_escape(s);
        assert!(!e.contains('<') && !e.contains('>') && !e.contains('"') && !e.contains('\''));
    }
    assert_eq!(xml_escape("&amp;"), "&amp;amp;");
}

#[test]
fn language_is_first_two_fields_of_voice() {
    assert_eq!(lang("en-US-ChristopherNeural"), "en-US");
    assert_eq!(lang("en-GB-ThomasNeural"), "en-GB");
    assert_eq!(lang("de-DE"), "de-DE");
    assert_eq!(lang("abc"), "abc");
    assert_eq!(lang("-"), "-");
    assert_eq!(lang("a-b-c-d"), "a-b");
    assert_eq!(lang(""), "en-US");
    assert_eq!(lang("--x"), "-");
}

#[test]
fn ssml_document_is_exact() {
    let r = RatePercent { negative: false, hundredths: 2000 };
    assert_eq!(
        build_ssml("en-US-AriaNeural", "Tom & Jerry", r),
        "<speak version='1.0' xml:lang='en-US'><voice name='en-US-AriaNeural'><prosody rate='+20.00%'>Tom &amp; Jerry</prosody></voice></speak>"
    );
}

#[test]
fn rate_is_written_with_sign_and_two_decimals() {
    let doc = |negative, hundredths| build_ssml("v", "", RatePercent { negative, hundredths });
    assert!(doc(false, 0).contains("rate='+0.00%'"));
    assert!(doc(true, 1250).contains("rate='-12.50%'"));
    assert!(doc(false, 5).contains("rate='+0.05%'"));
    assert!(doc(false, 10000).contains("rate='+100.00%'"));
    assert!(doc(true, 5000).contains("rate='-50.00%'"));
}

#[test]
fn request_needs_region_and_key() {
    let r = RatePercent { negative: false, hundredths: 0 };
    assert!(matches!(synthesis_request("", "k", "v", "t", r), Err(SynthError::NotConfigured)));
    assert!(matches!(synthesis_request("eastus", "", "v", "t", r), Err(SynthError::NotConfigured)));
}

#[test]
fn request_has_host_headers_and_body() {
    let r = RatePercent { negative: false, hundredths: 0 };
    let q = synthesis_request("eastus", "SECRET-REDACTED", "en-US-JennyNeural", "Hi", r).ok().unwrap();
    assert_eq!(q.host, "eastus.tts.speech.microsoft.com");
    assert_eq!(
        q.headers,
        "Ocp-Apim-Subscription-Key: SECRET-REDACTED\r\nContent-Type: application/ssml+xml\r\nX-Microsoft-OutputFormat: raw-24khz-16bit-mono-pcm\r\nUser-Agent: azure-sapi"
    );
    let body = String::from_utf8(q.body).unwrap();
    assert_eq!(body, build_ssml("en-US-JennyNeural", "Hi", r));
    assert_eq!(TTS_PATH, "/cognitiveservices/v1");
    assert_eq!(SAMPLE_RATE, 24000);
}

#[test]
fn non_ascii_text_is_utf8_in_body() {
    let r = RatePercent { negative: false, hundredths: 0 };
    let q = synthesis_request("r", "k", "v", "\u{e9}", r).ok().unwrap();
    assert!(q.body.windows(2).any(|p| p == [0xC3, 0xA9]));
}

#[test]
fn status_200_passes_the_body() {
    let r = check_response(200, vec![1, 2, 3]);
    assert_eq!(r.ok().unwrap(), vec![1, 2, 3]);
}

#[test]
fn other_status_keeps_first_300_characters() {
    let body = "x".repeat(500).into_bytes();
    match check_response(401, body) {
        Err(SynthError::Http { status, snippet }) => {
            assert_eq!(status, 401);
            assert_eq!(snippet.chars().count(), 300);
        }
        _ => panic!("expected an HTTP error"),
    }
    match check_response(503, b"busy".to_vec()) {
        Err(e) => assert_eq!(e.message(), "Azure HTTP 503: busy"),
        Ok(_) => panic!("expected an HTTP error"),
    }
    match check_response(400, vec![0x66, 0xFF, 0x67]) {
        Err(SynthError::Http { snippet, .. }) => assert_eq!(snippet, "f\u{FFFD}g"),
        _ => panic!("expected an HTTP error"),
    }
}

#[test]
fn not_configured_message() {
    assert_eq!(
        SynthError::NotConfigured.message(),
        "Azure region/key not configured on the voice token"
    );
}

#[test]
fn decodes_little_endian_samples() {
    let s = decode_pcm16(&[0x01, 0x00, 0xFF, 0x7F, 0x00, 0x80, 0xFF, 0xFF, 0x42]);
    assert_eq!(s, vec![1, 32767, -32768, -1]);
    assert!(decode_pcm16(&[]).is_empty());
}

#[test]
fn law_pcm_roundtrip_on_values() {
    let samples: Vec<i16> = vec![0, 1, -1, 255, 256, -256, i16::MAX, i16::MIN, 12345, -12345];
    let bytes = encode_pcm16(&samples);
    assert_eq!(bytes.len(), samples.len() * 2);
    assert_eq!(&bytes[2..4], &[0x01, 0x00]);
    assert_eq!(&bytes[4..6], &[0xFF, 0xFF]);
    assert_eq!(decode_pcm16(&bytes), samples);
}

#[test]
fn response_samples_decode_or_fail() {
    let r = response_samples(200, vec![0x10, 0x00, 0x00, 0xFF]);
    assert_eq!(r.ok().unwrap(), vec![16, -256]);
    assert!(matches!(response_samples(404, vec![]), Err(SynthError::Http { status: 404, .. })));
}

fn unescape(s: &str) -> String {
    s.replace("&lt;", "<").replace("&gt;", ">").replace("&quot;", "\"").replace("&apos;", "'").replace("&amp;", "&")
}

#[test]
fn law_escape_roundtrip_on_values() {
    for s in ["a & b", "&amp;", "<&>\"'", "plain text", "&&lt;", ""] {
        let e = xml_escape(s);
        assert_eq!(unescape(&e), s);
        for (i, _) in e.match_indices('&') {
            let rest = &e[i..];
            assert!(["&amp;", "&lt;", "&gt;", "&quot;", "&apos;"].iter().any(|p| rest.starts_with(p)));
        }
    }
    assert_eq!(xml_escape("nothing special"), "nothing special");
}
