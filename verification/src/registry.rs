//! The setup tool's registry layout: the voice table, the key paths of the
//! COM class and of the SAPI voice tokens, the values written at install,
//! the keys removed at uninstall, and the default-voice setting. Everything
//! is per user (HKCU). The Azure region and key are stored on each voice
//! token, and the engine reads them back from there.

use vstd::prelude::*;

use crate::text::{
    chars_of, contains_chars, contains_seq, debug_escaped, debug_string, push_str, str_eq,
    string_of,
};

verus! {

/// One registered voice: token name, display name, Azure voice short name,
/// gender, and LANGID as hex (`409` = en-US, `809` = en-GB).
#[derive(Clone, Copy, Debug)]
pub struct VoiceDef {
    pub token: &'static str,
    pub display: &'static str,
    pub voice_name: &'static str,
    pub gender: &'static str,
    pub language: &'static str,
}

/// Mathematical model of a [`VoiceDef`].
pub struct VoiceSpec {
    pub token: Seq<char>,
    pub display: Seq<char>,
    pub voice_name: Seq<char>,
    pub gender: Seq<char>,
    pub language: Seq<char>,
}

impl View for VoiceDef {
    type V = VoiceSpec;

    open spec fn view(&self) -> VoiceSpec {
        VoiceSpec {
            token: self.token@,
            display: self.display@,
            voice_name: self.voice_name@,
            gender: self.gender@,
            language: self.language@,
        }
    }
}

/// The voices the setup tool registers, in order.
pub open spec fn voice_table() -> Seq<VoiceSpec> {
    seq![
        VoiceSpec {
            token: "AzureChristopher"@,
            display: "Azure Christopher (en-US)"@,
            voice_name: "en-US-ChristopherNeural"@,
            gender: "Male"@,
            language: "409"@,
        },
        VoiceSpec {
            token: "AzureThomas"@,
            display: "Azure Thomas (en-GB)"@,
            voice_name: "en-GB-ThomasNeural"@,
            gender: "Male"@,
            language: "809"@,
        },
        VoiceSpec {
            token: "AzureAria"@,
            display: "Azure Aria (en-US)"@,
            voice_name: "en-US-AriaNeural"@,
            gender: "Female"@,
            language: "409"@,
        },
        VoiceSpec {
            token: "AzureGuy"@,
            display: "Azure Guy (en-US)"@,
            voice_name: "en-US-GuyNeural"@,
            gender: "Male"@,
            language: "409"@,
        },
        VoiceSpec {
            token: "AzureJenny"@,
            display: "Azure Jenny (en-US)"@,
            voice_name: "en-US-JennyNeural"@,
            gender: "Female"@,
            language: "409"@,
        },
    ]
}

/// The voice table.
pub fn voices() -> (r: Vec<VoiceDef>)
    ensures
        r@.len() == voice_table().len(),
        forall|i: int| 0 <= i < r@.len() ==> #[trigger] r@[i]@ == voice_table()[i],
{
    let mut r: Vec<VoiceDef> = Vec::new();
    r.push(
        VoiceDef {
            token: "AzureChristopher",
            display: "Azure Christopher (en-US)",
            voice_name: "en-US-ChristopherNeural",
            gender: "Male",
            language: "409",
        },
    );
    r.push(
        VoiceDef {
            token: "AzureThomas",
            display: "Azure Thomas (en-GB)",
            voice_name: "en-GB-ThomasNeural",
            gender: "Male",
            language: "809",
        },
    );
    r.push(
        VoiceDef {
            token: "AzureAria",
            display: "Azure Aria (en-US)",
            voice_name: "en-US-AriaNeural",
            gender: "Female",
            language: "409",
        },
    );
    r.push(
        VoiceDef {
            token: "AzureGuy",
            display: "Azure Guy (en-US)",
            voice_name: "en-US-GuyNeural",
            gender: "Male",
            language: "409",
        },
    );
    r.push(
        VoiceDef {
            token: "AzureJenny",
            display: "Azure Jenny (en-US)",
            voice_name: "en-US-JennyNeural",
            gender: "Female",
            language: "409",
        },
    );
    r
}

/// Whether `token` names a voice of the table.
pub open spec fn is_voice_token(token: Seq<char>) -> bool {
    exists|i: int| 0 <= i < voice_table().len() && (#[trigger] voice_table()[i]).token == token
}

/// The voice whose token is `token`, if the table has one.
pub fn find_voice(token: &str) -> (r: Option<VoiceDef>)
    ensures
        r is Some <==> is_voice_token(token@),
        r matches Some(v) ==> v.token@ == token@ && exists|i: int|
            0 <= i < voice_table().len() && #[trigger] voice_table()[i] == v@,
{
    let vs = voices();
    let mut i: usize = 0;
    while i < vs.len()
        invariant
            i <= vs@.len() == voice_table().len(),
            forall|k: int| 0 <= k < vs@.len() ==> #[trigger] vs@[k]@ == voice_table()[k],
            forall|k: int| 0 <= k < i ==> (#[trigger] voice_table()[k]).token != token@,
        decreases vs@.len() - i,
    {
        let v = vs[i];
        assert(vs@[i as int]@ == voice_table()[i as int]);
        if str_eq(v.token, token) {
            return Some(v);
        }
        i = i + 1;
    }
    None
}

/// Registry path of the SAPI voice tokens (under HKCU).
pub const SAPI_TOKENS: &'static str = "SOFTWARE\\Microsoft\\Speech\\Voices\\Tokens";

/// Registry path of the classic SAPI voice settings (under HKCU).
pub const SPEECH_VOICES: &'static str = "SOFTWARE\\Microsoft\\Speech\\Voices";

/// Registry path of the OneCore default-voice override (under HKCU), which
/// OneCore hosts read in place of the classic default.
pub const ONECORE_TTS: &'static str = "SOFTWARE\\Microsoft\\Speech_OneCore\\Settings\\TextToSpeech";

/// Key path of a voice token.
pub open spec fn token_key_spec(token: Seq<char>) -> Seq<char> {
    "SOFTWARE\\Microsoft\\Speech\\Voices\\Tokens"@ + "\\"@ + token
}

/// Full token id of a voice, as SAPI names it.
pub open spec fn token_id_spec(token: Seq<char>) -> Seq<char> {
    "HKEY_CURRENT_USER\\"@ + token_key_spec(token)
}

/// Key path of the COM class.
pub open spec fn clsid_key_spec(clsid: Seq<char>) -> Seq<char> {
    "Software\\Classes\\CLSID\\"@ + clsid
}

/// Key path of the COM class's in-process server entry.
pub open spec fn inproc_key_spec(clsid: Seq<char>) -> Seq<char> {
    clsid_key_spec(clsid) + "\\InprocServer32"@
}

/// Key path of a voice token's attributes.
pub open spec fn attributes_key_spec(token: Seq<char>) -> Seq<char> {
    token_key_spec(token) + "\\Attributes"@
}

/// Key path of a voice token (`SAPI_TOKENS\token`).
pub fn token_key(token: &str) -> (r: String)
    ensures
        r@ == token_key_spec(token@),
{
    let mut v: Vec<char> = Vec::new();
    push_str(&mut v, SAPI_TOKENS);
    push_str(&mut v, "\\");
    push_str(&mut v, token);
    string_of(v.as_slice())
}

/// Token id of a voice: `HKEY_CURRENT_USER\` and its key path.
pub fn token_id(token: &str) -> (r: String)
    ensures
        r@ == token_id_spec(token@),
{
    let mut v: Vec<char> = Vec::new();
    push_str(&mut v, "HKEY_CURRENT_USER\\");
    let k = token_key(token);
    push_str(&mut v, k.as_str());
    string_of(v.as_slice())
}

/// Key path of the COM class.
pub fn clsid_key(clsid: &str) -> (r: String)
    ensures
        r@ == clsid_key_spec(clsid@),
{
    let mut v: Vec<char> = Vec::new();
    push_str(&mut v, "Software\\Classes\\CLSID\\");
    push_str(&mut v, clsid);
    string_of(v.as_slice())
}

/// Key path of the COM class's in-process server entry.
pub fn inproc_key(clsid: &str) -> (r: String)
    ensures
        r@ == inproc_key_spec(clsid@),
{
    let mut v: Vec<char> = Vec::new();
    let k = clsid_key(clsid);
    push_str(&mut v, k.as_str());
    push_str(&mut v, "\\InprocServer32");
    string_of(v.as_slice())
}

/// Key path of a voice token's attributes.
pub fn attributes_key(token: &str) -> (r: String)
    ensures
        r@ == attributes_key_spec(token@),
{
    let mut v: Vec<char> = Vec::new();
    let k = token_key(token);
    push_str(&mut v, k.as_str());
    push_str(&mut v, "\\Attributes");
    string_of(v.as_slice())
}

/// One string value to write: key path, value name (empty for the key's
/// default value) and data.
#[derive(Debug)]
pub struct RegValue {
    pub key_path: String,
    pub name: String,
    pub value: String,
}

/// Mathematical model of a [`RegValue`].
pub struct RegValueSpec {
    pub key_path: Seq<char>,
    pub name: Seq<char>,
    pub value: Seq<char>,
}

impl View for RegValue {
    type V = RegValueSpec;

    open spec fn view(&self) -> RegValueSpec {
        RegValueSpec { key_path: self.key_path@, name: self.name@, value: self.value@ }
    }
}

/// The models of a list of values.
pub open spec fn reg_views(v: Seq<RegValue>) -> Seq<RegValueSpec> {
    v.map_values(|r: RegValue| r@)
}

/// A value to write, as a model.
pub open spec fn rv(key_path: Seq<char>, name: Seq<char>, value: Seq<char>) -> RegValueSpec {
    RegValueSpec { key_path, name, value }
}

fn reg_value(key_path: &str, name: &str, value: &str) -> (r: RegValue)
    ensures
        r@ == rv(key_path@, name@, value@),
{
    RegValue {
        key_path: String::from_str(key_path),
        name: String::from_str(name),
        value: String::from_str(value),
    }
}

/// The speed multiplier to store on a token: the one already there, so that
/// a user's setting survives a reinstall, or `1.0` (as the host asks).
pub open spec fn rate_boost_spec(existing: Seq<char>) -> Seq<char> {
    if existing.len() == 0 {
        "1.0"@
    } else {
        existing
    }
}

/// The speed multiplier to store on a token (see [`rate_boost_spec`]).
pub fn rate_boost_value(existing: &str) -> (r: String)
    ensures
        r@ == rate_boost_spec(existing@),
{
    if existing.is_empty() {
        String::from_str("1.0")
    } else {
        String::from_str(existing)
    }
}

/// The values written for one voice token: default value (display name),
/// CLSID, voice name, region, key, assets directory and speed multiplier on
/// the token, then name, gender, age, vendor and language on its attributes.
pub open spec fn voice_writes(
    v: VoiceSpec,
    clsid: Seq<char>,
    region: Seq<char>,
    key: Seq<char>,
    assets: Seq<char>,
    rate: Seq<char>,
) -> Seq<RegValueSpec> {
    let tk = token_key_spec(v.token);
    let ak = attributes_key_spec(v.token);
    seq![
        rv(tk, ""@, v.display),
        rv(tk, "CLSID"@, clsid),
        rv(tk, "VoiceName"@, v.voice_name),
        rv(tk, "Region"@, region),
        rv(tk, "ApiKey"@, key),
        rv(tk, "AssetsDir"@, assets),
        rv(tk, "RateBoost"@, rate),
        rv(ak, "Name"@, v.display),
        rv(ak, "Gender"@, v.gender),
        rv(ak, "Age"@, "Adult"@),
        rv(ak, "Vendor"@, "Azure"@),
        rv(ak, "Language"@, v.language),
    ]
}

/// The values written for the first `n` voices of the table.
pub open spec fn voices_writes(
    n: nat,
    clsid: Seq<char>,
    region: Seq<char>,
    key: Seq<char>,
    assets: Seq<char>,
    existing_rates: Seq<Seq<char>>,
) -> Seq<RegValueSpec>
    decreases n,
{
    if n == 0 {
        Seq::empty()
    } else {
        voices_writes((n - 1) as nat, clsid, region, key, assets, existing_rates) + voice_writes(
            voice_table()[n - 1],
            clsid,
            region,
            key,
            assets,
            rate_boost_spec(existing_rates[n - 1]),
        )
    }
}

/// Everything written at install: the COM class's server path and threading
/// model, then each voice token in table order.
pub open spec fn registration(
    dll: Seq<char>,
    assets: Seq<char>,
    region: Seq<char>,
    key: Seq<char>,
    clsid: Seq<char>,
    existing_rates: Seq<Seq<char>>,
) -> Seq<RegValueSpec> {
    seq![rv(inproc_key_spec(clsid), ""@, dll), rv(inproc_key_spec(clsid), "ThreadingModel"@, "Both"@)]
        + voices_writes(5, clsid, region, key, assets, existing_rates)
}

/// The models of a list of strings.
pub open spec fn string_views(v: Seq<String>) -> Seq<Seq<char>> {
    v.map_values(|s: String| s@)
}

fn push_voice_writes(
    out: &mut Vec<RegValue>,
    v: VoiceDef,
    clsid: &str,
    region: &str,
    key_value: &str,
    assets: &str,
    rate: &str,
)
    ensures
        reg_views(final(out)@) == reg_views(old(out)@) + voice_writes(
            v@,
            clsid@,
            region@,
            key_value@,
            assets@,
            rate@,
        ),
{
    let ghost start = reg_views(out@);
    let tk = token_key(v.token);
    let ak = attributes_key(v.token);
    out.push(reg_value(tk.as_str(), "", v.display));
    out.push(reg_value(tk.as_str(), "CLSID", clsid));
    out.push(reg_value(tk.as_str(), "VoiceName", v.voice_name));
    out.push(reg_value(tk.as_str(), "Region", region));
    out.push(reg_value(tk.as_str(), "ApiKey", key_value));
    out.push(reg_value(tk.as_str(), "AssetsDir", assets));
    out.push(reg_value(tk.as_str(), "RateBoost", rate));
    out.push(reg_value(ak.as_str(), "Name", v.display));
    out.push(reg_value(ak.as_str(), "Gender", v.gender));
    out.push(reg_value(ak.as_str(), "Age", "Adult"));
    out.push(reg_value(ak.as_str(), "Vendor", "Azure"));
    out.push(reg_value(ak.as_str(), "Language", v.language));
    assert(reg_views(out@) =~= start + voice_writes(
        v@,
        clsid@,
        region@,
        key_value@,
        assets@,
        rate@,
    ));
}

/// The values to write at install, in order, given the speed multiplier
/// already stored on each voice token (empty where there is none).
pub fn register_user(
    dll: &str,
    assets: &str,
    region: &str,
    key_value: &str,
    clsid: &str,
    existing_rates: &Vec<String>,
) -> (r: Vec<RegValue>)
    requires
        existing_rates@.len() == voice_table().len(),
    ensures
        reg_views(r@) == registration(
            dll@,
            assets@,
            region@,
            key_value@,
            clsid@,
            string_views(existing_rates@),
        ),
{
    let mut out: Vec<RegValue> = Vec::new();
    let ik = inproc_key(clsid);
    out.push(reg_value(ik.as_str(), "", dll));
    out.push(reg_value(ik.as_str(), "ThreadingModel", "Both"));
    let ghost head = reg_views(out@);
    assert(head =~= seq![
        rv(inproc_key_spec(clsid@), ""@, dll@),
        rv(inproc_key_spec(clsid@), "ThreadingModel"@, "Both"@),
    ]);
    let vs = voices();
    let ghost rates = string_views(existing_rates@);
    let mut i: usize = 0;
    while i < vs.len()
        invariant
            i <= vs@.len() == voice_table().len() == existing_rates@.len(),
            rates == string_views(existing_rates@),
            forall|k: int| 0 <= k < vs@.len() ==> #[trigger] vs@[k]@ == voice_table()[k],
            reg_views(out@) == head + voices_writes(
                i as nat,
                clsid@,
                region@,
                key_value@,
                assets@,
                rates,
            ),
        decreases vs@.len() - i,
    {
        let rate = rate_boost_value(existing_rates[i].as_str());
        assert(rates[i as int] == existing_rates@[i as int]@);
        assert(vs@[i as int]@ == voice_table()[i as int]);
        push_voice_writes(&mut out, vs[i], clsid, region, key_value, assets, rate.as_str());
        assert(reg_views(out@) =~= head + voices_writes(
            (i + 1) as nat,
            clsid@,
            region@,
            key_value@,
            assets@,
            rates,
        ));
        i = i + 1;
    }
    out
}

/// The keys removed at uninstall: the COM class, then each voice token in
/// table order.
pub open spec fn unregistration(clsid: Seq<char>) -> Seq<Seq<char>> {
    seq![clsid_key_spec(clsid)] + Seq::new(5, |i: int| token_key_spec(voice_table()[i].token))
}

/// The keys to remove at uninstall (see [`unregistration`]).
pub fn unregister_user(clsid: &str) -> (r: Vec<String>)
    ensures
        string_views(r@) == unregistration(clsid@),
{
    let mut out: Vec<String> = Vec::new();
    out.push(clsid_key(clsid));
    let vs = voices();
    let mut i: usize = 0;
    while i < vs.len()
        invariant
            i <= vs@.len() == 5,
            forall|k: int| 0 <= k < vs@.len() ==> #[trigger] vs@[k]@ == voice_table()[k],
            out@.len() == i + 1,
            out@[0]@ == clsid_key_spec(clsid@),
            forall|k: int| 0 <= k < i ==> #[trigger] out@[k + 1]@ == token_key_spec(voice_table()[k].token),
        decreases vs@.len() - i,
    {
        assert(vs@[i as int]@ == voice_table()[i as int]);
        out.push(token_key(vs[i].token));
        i = i + 1;
    }
    assert forall|k: int| 0 <= k < 6 implies #[trigger] string_views(out@)[k] == unregistration(
        clsid@,
    )[k] by {
        if k > 0 {
            assert(out@[(k - 1) + 1]@ == token_key_spec(voice_table()[k - 1].token));
        }
    }
    assert(string_views(out@) =~= unregistration(clsid@));
    out
}

/// Whether the classic default voice id points at one of these voices, so
/// that uninstall clears it.
pub fn points_at_our_voice(default_token_id: &str) -> (b: bool)
    ensures
        b == contains_seq(default_token_id@, "\\Tokens\\Azure"@),
{
    let d = chars_of(default_token_id);
    let pat = chars_of("\\Tokens\\Azure");
    contains_chars(d.as_slice(), pat.as_slice())
}

/// Why a setup step was refused.
#[derive(Debug)]
pub enum SetupError {
    /// The token names no voice of the table.
    UnknownVoiceToken(String),
    /// The region or the key is empty.
    MissingCredentials,
}

/// The tokens of the voice table, separated by `, `.
pub open spec fn tokens_joined(n: nat) -> Seq<char>
    decreases n,
{
    if n == 0 {
        Seq::empty()
    } else if n == 1 {
        voice_table()[0].token
    } else {
        tokens_joined((n - 1) as nat) + ", "@ + voice_table()[n - 1].token
    }
}

impl SetupError {
    /// The error as a line of text.
    pub fn message(&self) -> (m: String)
        ensures
            self matches SetupError::UnknownVoiceToken(t) ==> m@ == "unknown voice token "@
                + debug_escaped(t@) + "; available: "@ + tokens_joined(5),
            self is MissingCredentials ==> m@ == "both an Azure region and key are required"@,
    {
        match self {
            SetupError::UnknownVoiceToken(t) => {
                let mut v: Vec<char> = Vec::new();
                push_str(&mut v, "unknown voice token ");
                let q = debug_string(t.as_str());
                push_str(&mut v, q.as_str());
                push_str(&mut v, "; available: ");
                let ghost head = v@;
                let vs = voices();
                let mut i: usize = 0;
                while i < vs.len()
                    invariant
                        i <= vs@.len() == 5,
                        forall|k: int| 0 <= k < vs@.len() ==> #[trigger] vs@[k]@ == voice_table()[k],
                        v@ == head + tokens_joined(i as nat),
                    decreases vs@.len() - i,
                {
                    assert(vs@[i as int]@ == voice_table()[i as int]);
                    if i > 0 {
                        push_str(&mut v, ", ");
                    }
                    push_str(&mut v, vs[i].token);
                    assert(v@ =~= head + tokens_joined((i + 1) as nat));
                    i = i + 1;
                }
                string_of(v.as_slice())
            },
            SetupError::MissingCredentials => {
                let mut v: Vec<char> = Vec::new();
                push_str(&mut v, "both an Azure region and key are required");
                string_of(v.as_slice())
            },
        }
    }
}

/// Where the default voice is recorded: the token's key (which must exist)
/// and the token id to store as the classic default.
#[derive(Debug)]
pub struct DefaultVoice {
    pub token_key: String,
    pub default_token_id: String,
}

/// Checks that `token` names a voice of the table and gives the registry
/// paths for making it the default.
pub fn set_default(token: &str) -> (r: Result<DefaultVoice, SetupError>)
    ensures
        r is Ok <==> is_voice_token(token@),
        r matches Err(e) ==> (e matches SetupError::UnknownVoiceToken(t) && t@ == token@),
        r matches Ok(d) ==> d.token_key@ == token_key_spec(token@) && d.default_token_id@
            == token_id_spec(token@),
{
    if find_voice(token).is_none() {
        return Err(SetupError::UnknownVoiceToken(String::from_str(token)));
    }
    Ok(DefaultVoice { token_key: token_key(token), default_token_id: token_id(token) })
}

proof fn lemma_rate_boost_stable(existing: Seq<char>)
    ensures
        rate_boost_spec(rate_boost_spec(existing)) == rate_boost_spec(existing),
        rate_boost_spec(existing).len() > 0,
{
    reveal_strlit("1.0");
}

proof fn lemma_voices_writes_stable(
    n: nat,
    clsid: Seq<char>,
    region: Seq<char>,
    key: Seq<char>,
    assets: Seq<char>,
    existing_rates: Seq<Seq<char>>,
    stored: Seq<Seq<char>>,
)
    requires
        n <= existing_rates.len() == stored.len(),
        forall|i: int| 0 <= i < stored.len() ==> #[trigger] stored[i] == rate_boost_spec(existing_rates[i]),
    ensures
        voices_writes(n, clsid, region, key, assets, stored) == voices_writes(
            n,
            clsid,
            region,
            key,
            assets,
            existing_rates,
        ),
    decreases n,
{
    if n > 0 {
        lemma_voices_writes_stable((n - 1) as nat, clsid, region, key, assets, existing_rates, stored);
        lemma_rate_boost_stable(existing_rates[n - 1]);
        assert(stored[n - 1] == rate_boost_spec(existing_rates[n - 1]));
    }
}

/// Law: a reinstall keeps each voice's speed. Registering again, with the
/// speed multipliers that a registration stored as the existing ones, writes
/// exactly the same values.
pub proof fn law_reinstall_keeps_rates(
    dll: Seq<char>,
    assets: Seq<char>,
    region: Seq<char>,
    key: Seq<char>,
    clsid: Seq<char>,
    existing_rates: Seq<Seq<char>>,
)
    requires
        existing_rates.len() == voice_table().len(),
    ensures
        ({
            let stored = Seq::new(5, |i: int| rate_boost_spec(existing_rates[i]));
            registration(dll, assets, region, key, clsid, stored) == registration(
                dll,
                assets,
                region,
                key,
                clsid,
                existing_rates,
            )
        }),
{
    let stored = Seq::new(5, |i: int| rate_boost_spec(existing_rates[i]));
    lemma_voices_writes_stable(5, clsid, region, key, assets, existing_rates, stored);
}

/// Law: uninstalling undoes the default voice that setup chose. For every
/// voice of the table, the token id that becomes the classic default is one
/// that uninstall recognizes as its own (and so clears), and the token's key
/// is among the keys that uninstall removes.
pub proof fn law_uninstall_clears_default(clsid: Seq<char>, i: int)
    requires
        0 <= i < voice_table().len(),
    ensures
        contains_seq(token_id_spec(voice_table()[i].token), "\\Tokens\\Azure"@),
        unregistration(clsid).contains(token_key_spec(voice_table()[i].token)),
{
    reveal_strlit("HKEY_CURRENT_USER\\");
    reveal_strlit("SOFTWARE\\Microsoft\\Speech\\Voices\\Tokens");
    reveal_strlit("\\");
    reveal_strlit("\\Tokens\\Azure");
    reveal_strlit("AzureChristopher");
    reveal_strlit("AzureThomas");
    reveal_strlit("AzureAria");
    reveal_strlit("AzureGuy");
    reveal_strlit("AzureJenny");
    let id = token_id_spec(voice_table()[i].token);
    let pat = "\\Tokens\\Azure"@;
    assert(id.subrange(50, 63) =~= pat);
    assert(crate::text::occurs_at(id, pat, 50));
    let u = unregistration(clsid);
    assert(u[i + 1] == token_key_spec(voice_table()[i].token));
}

proof fn lemma_value_names_differ()
    ensures
        ""@ != "ApiKey"@ && ""@ != "Region"@,
        "CLSID"@ != "ApiKey"@ && "CLSID"@ != "Region"@,
        "VoiceName"@ != "ApiKey"@ && "VoiceName"@ != "Region"@,
        "Region"@ != "ApiKey"@,
        "AssetsDir"@ != "ApiKey"@ && "AssetsDir"@ != "Region"@,
        "RateBoost"@ != "ApiKey"@ && "RateBoost"@ != "Region"@,
        "Name"@ != "ApiKey"@ && "Name"@ != "Region"@,
        "Gender"@ != "ApiKey"@ && "Gender"@ != "Region"@,
        "Age"@ != "ApiKey"@ && "Age"@ != "Region"@,
        "Vendor"@ != "ApiKey"@ && "Vendor"@ != "Region"@,
        "Language"@ != "ApiKey"@ && "Language"@ != "Region"@,
        "ThreadingModel"@ != "ApiKey"@ && "ThreadingModel"@ != "Region"@,
{
    reveal_strlit("");
    reveal_strlit("CLSID");
    reveal_strlit("VoiceName");
    reveal_strlit("Region");
    reveal_strlit("ApiKey");
    reveal_strlit("AssetsDir");
    reveal_strlit("RateBoost");
    reveal_strlit("Name");
    reveal_strlit("Gender");
    reveal_strlit("Age");
    reveal_strlit("Vendor");
    reveal_strlit("Language");
    reveal_strlit("ThreadingModel");
    assert(""@.len() == 0);
    assert("CLSID"@.len() == 5);
    assert("VoiceName"@.len() == 9);
    assert("Region"@.len() == 6);
    assert("ApiKey"@.len() == 6);
    assert("AssetsDir"@.len() == 9);
    assert("RateBoost"@.len() == 9);
    assert("Name"@.len() == 4);
    assert("Gender"@.len() == 6);
    assert("Age"@.len() == 3);
    assert("Vendor"@.len() == 6);
    assert("Language"@.len() == 8);
    assert("ThreadingModel"@.len() == 14);
    assert("Region"@[0] != "ApiKey"@[0]);
    assert("Gender"@[0] != "ApiKey"@[0]);
    assert("Gender"@[0] != "Region"@[0]);
    assert("Vendor"@[0] != "ApiKey"@[0]);
    assert("Vendor"@[0] != "Region"@[0]);
}

proof fn lemma_voices_writes(
    n: nat,
    clsid: Seq<char>,
    region: Seq<char>,
    key: Seq<char>,
    assets: Seq<char>,
    existing_rates: Seq<Seq<char>>,
)
    requires
        n <= 5,
    ensures
        ({
            let w = voices_writes(n, clsid, region, key, assets, existing_rates);
            &&& w.len() == 12 * n
            &&& forall|m: int|
                0 <= m < n ==> {
                    let tk = token_key_spec((#[trigger] voice_table()[m]).token);
                    let ak = attributes_key_spec(voice_table()[m].token);
                    &&& w[12 * m] == rv(tk, ""@, voice_table()[m].display)
                    &&& w[12 * m + 6] == rv(
                        tk,
                        "RateBoost"@,
                        if existing_rates[m].len() > 0 { existing_rates[m] } else { "1.0"@ },
                    )
                    &&& w[12 * m + 7] == rv(ak, "Name"@, voice_table()[m].display)
                    &&& w[12 * m + 8] == rv(ak, "Gender"@, voice_table()[m].gender)
                    &&& w[12 * m + 9] == rv(ak, "Age"@, "Adult"@)
                    &&& w[12 * m + 10] == rv(ak, "Vendor"@, "Azure"@)
                    &&& w[12 * m + 11] == rv(ak, "Language"@, voice_table()[m].language)
                    &&& w[12 * m + 1] == rv(tk, "CLSID"@, clsid)
                    &&& w[12 * m + 2] == rv(tk, "VoiceName"@, voice_table()[m].voice_name)
                    &&& w[12 * m + 3] == rv(tk, "Region"@, region)
                    &&& w[12 * m + 4] == rv(tk, "ApiKey"@, key)
                    &&& w[12 * m + 5] == rv(tk, "AssetsDir"@, assets)
                }
            &&& forall|j: int| 0 <= j < w.len() && (#[trigger] w[j]).name == "ApiKey"@ ==> w[j].value == key
            &&& forall|j: int| 0 <= j < w.len() && (#[trigger] w[j]).name == "Region"@ ==> w[j].value == region
        }),
    decreases n,
{
    if n > 0 {
        lemma_voices_writes((n - 1) as nat, clsid, region, key, assets, existing_rates);
        lemma_value_names_differ();
        let prev = voices_writes((n - 1) as nat, clsid, region, key, assets, existing_rates);
        let last = voice_writes(
            voice_table()[n - 1],
            clsid,
            region,
            key,
            assets,
            rate_boost_spec(existing_rates[n - 1]),
        );
        let w = voices_writes(n, clsid, region, key, assets, existing_rates);
        assert(w == prev + last);
        assert forall|m: int| 0 <= m < n implies {
            let tk = token_key_spec((#[trigger] voice_table()[m]).token);
            let ak = attributes_key_spec(voice_table()[m].token);
            &&& w[12 * m] == rv(tk, ""@, voice_table()[m].display)
            &&& w[12 * m + 6] == rv(
                tk,
                "RateBoost"@,
                if existing_rates[m].len() > 0 { existing_rates[m] } else { "1.0"@ },
            )
            &&& w[12 * m + 7] == rv(ak, "Name"@, voice_table()[m].display)
            &&& w[12 * m + 8] == rv(ak, "Gender"@, voice_table()[m].gender)
            &&& w[12 * m + 9] == rv(ak, "Age"@, "Adult"@)
            &&& w[12 * m + 10] == rv(ak, "Vendor"@, "Azure"@)
            &&& w[12 * m + 11] == rv(ak, "Language"@, voice_table()[m].language)
            &&& w[12 * m + 1] == rv(tk, "CLSID"@, clsid)
            &&& w[12 * m + 2] == rv(tk, "VoiceName"@, voice_table()[m].voice_name)
            &&& w[12 * m + 3] == rv(tk, "Region"@, region)
            &&& w[12 * m + 4] == rv(tk, "ApiKey"@, key)
            &&& w[12 * m + 5] == rv(tk, "AssetsDir"@, assets)
        } by {
            if m < n - 1 {
                assert(w[12 * m] == prev[12 * m]);
                assert(w[12 * m + 6] == prev[12 * m + 6]);
                assert(w[12 * m + 7] == prev[12 * m + 7]);
                assert(w[12 * m + 8] == prev[12 * m + 8]);
                assert(w[12 * m + 9] == prev[12 * m + 9]);
                assert(w[12 * m + 10] == prev[12 * m + 10]);
                assert(w[12 * m + 11] == prev[12 * m + 11]);
                assert(w[12 * m + 1] == prev[12 * m + 1]);
                assert(w[12 * m + 2] == prev[12 * m + 2]);
                assert(w[12 * m + 3] == prev[12 * m + 3]);
                assert(w[12 * m + 4] == prev[12 * m + 4]);
                assert(w[12 * m + 5] == prev[12 * m + 5]);
            } else {
                assert(w[12 * m] == last[0]);
                assert(w[12 * m + 6] == last[6]);
                assert(w[12 * m + 7] == last[7]);
                assert(w[12 * m + 8] == last[8]);
                assert(w[12 * m + 9] == last[9]);
                assert(w[12 * m + 10] == last[10]);
                assert(w[12 * m + 11] == last[11]);
                assert(w[12 * m + 1] == last[1]);
                assert(w[12 * m + 2] == last[2]);
                assert(w[12 * m + 3] == last[3]);
                assert(w[12 * m + 4] == last[4]);
                assert(w[12 * m + 5] == last[5]);
            }
        }
        assert forall|j: int| 0 <= j < w.len() && (#[trigger] w[j]).name == "ApiKey"@ implies w[j].value
            == key by {
            if j < prev.len() {
                assert(w[j] == prev[j]);
            } else {
                assert(w[j] == last[j - prev.len()]);
            }
        }
        assert forall|j: int| 0 <= j < w.len() && (#[trigger] w[j]).name == "Region"@ implies w[j].value
            == region by {
            if j < prev.len() {
                assert(w[j] == prev[j]);
            } else {
                assert(w[j] == last[j - prev.len()]);
            }
        }
    }
}

/// Law: every voice token receives the credentials and settings given at
/// install. For each voice of the table the registration writes, on that
/// voice's token key, `ApiKey` = the key passed in, `Region` = the region
/// passed in, `CLSID` = the class id, `VoiceName` = the voice's Azure name
/// and `AssetsDir` = the assets directory, its display name as the key's
/// default value, the speed multiplier already stored (or `1.0`), and its
/// gender and language on the attributes key; the COM class's server is the
/// DLL path, with the `Both` threading model. No `ApiKey` value is anything but the key, and no `Region` value
/// anything but the region.
pub proof fn law_registration_carries_inputs(
    dll: Seq<char>,
    assets: Seq<char>,
    region: Seq<char>,
    key: Seq<char>,
    clsid: Seq<char>,
    existing_rates: Seq<Seq<char>>,
    i: int,
)
    requires
        existing_rates.len() == voice_table().len(),
        0 <= i < voice_table().len(),
    ensures
        ({
            let reg = registration(dll, assets, region, key, clsid, existing_rates);
            let tk = token_key_spec(voice_table()[i].token);
            &&& reg.contains(rv(tk, "ApiKey"@, key))
            &&& reg.contains(rv(tk, "Region"@, region))
            &&& reg.contains(rv(tk, "CLSID"@, clsid))
            &&& reg.contains(rv(tk, "VoiceName"@, voice_table()[i].voice_name))
            &&& reg.contains(rv(tk, "AssetsDir"@, assets))
            &&& reg.contains(rv(inproc_key_spec(clsid), ""@, dll))
            &&& reg.contains(rv(inproc_key_spec(clsid), "ThreadingModel"@, "Both"@))
            &&& reg.contains(rv(tk, ""@, voice_table()[i].display))
            &&& reg.contains(
                rv(
                    tk,
                    "RateBoost"@,
                    if existing_rates[i].len() > 0 { existing_rates[i] } else { "1.0"@ },
                ),
            )
            &&& reg.contains(rv(attributes_key_spec(voice_table()[i].token), "Gender"@, voice_table()[i].gender))
            &&& reg.contains(rv(attributes_key_spec(voice_table()[i].token), "Language"@, voice_table()[i].language))
            &&& forall|j: int| 0 <= j < reg.len() && (#[trigger] reg[j]).name == "ApiKey"@ ==> reg[j].value == key
            &&& forall|j: int| 0 <= j < reg.len() && (#[trigger] reg[j]).name == "Region"@ ==> reg[j].value == region
        }),
{
    lemma_voices_writes(5, clsid, region, key, assets, existing_rates);
    lemma_value_names_differ();
    let head = seq![rv(inproc_key_spec(clsid), ""@, dll), rv(inproc_key_spec(clsid), "ThreadingModel"@, "Both"@)];
    let w = voices_writes(5, clsid, region, key, assets, existing_rates);
    let reg = registration(dll, assets, region, key, clsid, existing_rates);
    assert(reg == head + w);
    assert(reg[2 + 12 * i + 1] == w[12 * i + 1]);
    assert(reg[2 + 12 * i + 2] == w[12 * i + 2]);
    assert(reg[2 + 12 * i + 3] == w[12 * i + 3]);
    assert(reg[2 + 12 * i + 4] == w[12 * i + 4]);
    assert(reg[2 + 12 * i + 5] == w[12 * i + 5]);
    assert(reg[0] == head[0]);
    assert(reg[1] == head[1]);
    assert(reg[2 + 12 * i] == w[12 * i]);
    assert(reg[2 + 12 * i + 6] == w[12 * i + 6]);
    assert(reg[2 + 12 * i + 8] == w[12 * i + 8]);
    assert(reg[2 + 12 * i + 11] == w[12 * i + 11]);
    assert forall|j: int| 0 <= j < reg.len() && (#[trigger] reg[j]).name == "ApiKey"@ implies reg[j].value
        == key by {
        if j >= 2 {
            assert(reg[j] == w[j - 2]);
        }
    }
    assert forall|j: int| 0 <= j < reg.len() && (#[trigger] reg[j]).name == "Region"@ implies reg[j].value
        == region by {
        if j >= 2 {
            assert(reg[j] == w[j - 2]);
        }
    }
}

} // verus!
