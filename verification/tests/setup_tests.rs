use azure_sapi::cli::{check_credentials, env_credential, is_affirmative, parse_command, Command, DEFAULT_TOKEN};
use azure_sapi::config::assets_dir;
use azure_sapi::logger::{log, set_dir};
use azure_sapi::registry::{
    attributes_key, clsid_key, find_voice, inproc_key, points_at_our_voice, rate_boost_value,
    register_user, set_default, token_id, token_key, unregister_user, voices, SetupError,
    ONECORE_TTS, SAPI_TOKENS, SPEECH_VOICES,
};

fn args(v: &[&str]) -> Vec<String> {
    v.iter().map(|s| s.to_string()).collect()
}

#[test]
fn voice_table_has_five_voices() {
    let v = voices();
    let tokens: Vec<&str> = v.iter().map(|x| x.token).collect();
    assert_eq!(tokens, vec!["AzureChristopher", "AzureThomas", "AzureAria", "AzureGuy", "AzureJenny"]);
    assert_eq!(v[1].display, "Azure Thomas (en-GB)");
    assert_eq!(v[1].voice_name, "en-GB-ThomasNeural");
    assert_eq!(v[1].language, "809");
    assert_eq!(v[2].gender, "Female");
}

#[test]
fn finds_voices_by_token() {
    assert_eq!(find_voice("AzureGuy").unwrap().voice_name, "en-US-GuyNeural");
    assert!(find_voice("azureguy").is_none());
    assert!(find_voice("").is_none());
}

#[test]
fn registry_paths() {
    assert_eq!(SAPI_TOKENS, r"SOFTWARE\Microsoft\Speech\Voices\Tokens");
    assert_eq!(SPEECH_VOICES, r"SOFTWARE\Microsoft\Speech\Voices");
    assert_eq!(ONECORE_TTS, r"SOFTWARE\Microsoft\Speech_OneCore\Settings\TextToSpeech");
    assert_eq!(token_key("AzureAria"), r"SOFTWARE\Microsoft\Speech\Voices\Tokens\AzureAria");
    assert_eq!(token_id("AzureAria"), r"HKEY_CURRENT_USER\SOFTWARE\Microsoft\Speech\Voices\Tokens\AzureAria");
    assert_eq!(attributes_key("AzureAria"), r"SOFTWARE\Microsoft\Speech\Voices\Tokens\AzureAria\Attributes");
    assert_eq!(clsid_key("{X}"), r"Software\Classes\CLSID\{X}");
    assert_eq!(inproc_key("{X}"), r"Software\Classes\CLSID\{X}\InprocServer32");
}

#[test]
fn rate_boost_defaults_to_one() {
    assert_eq!(rate_boost_value(""), "1.0");
    assert_eq!(rate_boost_value("1.2"), "1.2");
}

#[test]
fn registration_values_in_order() {
    let rates = args(&["", "1.5", "", "", ""]);
    let r = register_user(r"C:\a\azure_sapi.dll", r"C:\a", "eastus", "k", "{C}", &rates);
    assert_eq!(r.len(), 2 + 5 * 12);
    assert_eq!(r[0].key_path, r"Software\Classes\CLSID\{C}\InprocServer32");
    assert_eq!(r[0].name, "");
    assert_eq!(r[0].value, r"C:\a\azure_sapi.dll");
    assert_eq!(r[1].name, "ThreadingModel");
    assert_eq!(r[1].value, "Both");
    let tk = r"SOFTWARE\Microsoft\Speech\Voices\Tokens\AzureChristopher";
    assert_eq!((r[2].key_path.as_str(), r[2].name.as_str(), r[2].value.as_str()), (tk, "", "Azure Christopher (en-US)"));
    assert_eq!(r[3].value, "{C}");
    assert_eq!(r[4].value, "en-US-ChristopherNeural");
    assert_eq!(r[5].value, "eastus");
    assert_eq!(r[6].name, "ApiKey");
    assert_eq!(r[7].value, r"C:\a");
    assert_eq!((r[8].name.as_str(), r[8].value.as_str()), ("RateBoost", "1.0"));
    assert_eq!(r[9].key_path, format!(r"{tk}\Attributes"));
    assert_eq!(r[11].value, "Adult");
    assert_eq!(r[12].value, "Azure");
    assert_eq!(r[13].value, "409");
    assert_eq!((r[14 + 6].name.as_str(), r[14 + 6].value.as_str()), ("RateBoost", "1.5"));
    assert_eq!(r[14 + 11].value, "809");
}

#[test]
fn law_reinstall_keeps_rates_on_values() {
    let first = args(&["", "1.5", "", "0.8", ""]);
    let a = register_user("d", "a", "r", "k", "{C}", &first);
    let stored: Vec<String> = a.iter().filter(|x| x.name == "RateBoost").map(|x| x.value.clone()).collect();
    assert_eq!(stored, args(&["1.0", "1.5", "1.0", "0.8", "1.0"]));
    let b = register_user("d", "a", "r", "k", "{C}", &stored);
    assert_eq!(a.len(), b.len());
    for (x, y) in a.iter().zip(b.iter()) {
        assert_eq!((&x.key_path, &x.name, &x.value), (&y.key_path, &y.name, &y.value));
    }
}

#[test]
fn unregistration_keys() {
    let k = unregister_user("{C}");
    assert_eq!(k.len(), 6);
    assert_eq!(k[0], r"Software\Classes\CLSID\{C}");
    assert_eq!(k[5], r"SOFTWARE\Microsoft\Speech\Voices\Tokens\AzureJenny");
}

#[test]
fn our_default_is_recognized() {
    assert!(points_at_our_voice(r"HKEY_CURRENT_USER\SOFTWARE\Microsoft\Speech\Voices\Tokens\AzureThomas"));
    assert!(!points_at_our_voice(r"HKEY_LOCAL_MACHINE\SOFTWARE\Microsoft\Speech\Voices\Tokens\TTS_MS_EN-US_ZIRA_11.0"));
    assert!(!points_at_our_voice(""));
}

#[test]
fn law_uninstall_clears_default_on_values() {
    let keys = unregister_user("{C}");
    for v in voices() {
        let d = set_default(v.token).ok().unwrap();
        assert!(points_at_our_voice(&d.default_token_id));
        assert!(keys.contains(&d.token_key));
    }
}

#[test]
fn set_default_known_and_unknown() {
    let d = set_default("AzureJenny").ok().unwrap();
    assert_eq!(d.token_key, r"SOFTWARE\Microsoft\Speech\Voices\Tokens\AzureJenny");
    assert_eq!(d.default_token_id, r"HKEY_CURRENT_USER\SOFTWARE\Microsoft\Speech\Voices\Tokens\AzureJenny");
    match set_default("Bob") {
        Err(e) => {
            assert!(matches!(e, SetupError::UnknownVoiceToken(ref t) if t == "Bob"));
            assert_eq!(
                e.message(),
                "unknown voice token \"Bob\"; available: AzureChristopher, AzureThomas, AzureAria, AzureGuy, AzureJenny"
            );
        }
        Ok(_) => panic!("expected an error"),
    }
}

#[test]
fn parses_commands() {
    assert!(matches!(parse_command(&args(&[])), Command::Interactive));
    assert!(matches!(parse_command(&args(&[""])), Command::Interactive));
    assert!(matches!(parse_command(&args(&["install"])), Command::Install));
    assert!(matches!(parse_command(&args(&["uninstall"])), Command::Uninstall { purge: false }));
    assert!(matches!(parse_command(&args(&["uninstall", "--purge"])), Command::Uninstall { purge: true }));
    assert!(matches!(parse_command(&args(&["default-voice"])), Command::DefaultVoice(t) if t == DEFAULT_TOKEN));
    assert!(matches!(parse_command(&args(&["default-voice", "AzureAria"])), Command::DefaultVoice(t) if t == "AzureAria"));
    assert!(matches!(parse_command(&args(&["test", "--x"])), Command::Test(t) if t == "AzureThomas"));
    assert!(matches!(parse_command(&args(&["rate", "1.2"])), Command::Rate(Some(a)) if a == "1.2"));
    assert!(matches!(parse_command(&args(&["rate"])), Command::Rate(None)));
    assert!(matches!(parse_command(&args(&["help"])), Command::Usage));
    assert!(matches!(parse_command(&args(&["INSTALL"])), Command::Usage));
}

#[test]
fn affirmative_answers() {
    for a in ["", "\n", "y", "Y\r\n", " yes ", "YES"] {
        assert!(is_affirmative(a), "{a:?}");
    }
    for a in ["n", "no", "yess", "y y"] {
        assert!(!is_affirmative(a), "{a:?}");
    }
}

#[test]
fn credentials_from_environment() {
    assert_eq!(env_credential(Some("  eastus \n".to_string())), Some("eastus".to_string()));
    assert_eq!(env_credential(Some("   ".to_string())), None);
    assert_eq!(env_credential(None), None);
    assert!(matches!(check_credentials(String::new(), "k".to_string()), Err(SetupError::MissingCredentials)));
    assert!(matches!(check_credentials("r".to_string(), String::new()), Err(SetupError::MissingCredentials)));
    let ok = check_credentials("r".to_string(), "k".to_string()).ok().unwrap();
    assert_eq!(ok, ("r".to_string(), "k".to_string()));
    assert_eq!(SetupError::MissingCredentials.message(), "both an Azure region and key are required");
}

#[test]
fn assets_dir_order() {
    assert_eq!(assets_dir(Some("D:\\x".to_string()), Some("E".to_string()), None), "D:\\x");
    assert_eq!(assets_dir(Some(String::new()), Some("E".to_string()), None), "E");
    assert_eq!(assets_dir(None, Some("E".to_string()), Some("L".to_string())), "E");
    let p = assets_dir(None, Some(String::new()), Some("L".to_string()));
    assert!(p.starts_with('L') && p.ends_with("AzureSapi") && p.len() == "L".len() + 1 + "AzureSapi".len());
    let q = assets_dir(None, None, None);
    assert!(q.starts_with('.') && q.ends_with("AzureSapi"));
}

#[test]
fn log_records() {
    let mut path: Option<String> = None;
    assert_eq!(log(&path, 5, "hi"), None);
    set_dir(&mut path, "logs");
    let p = path.clone().unwrap();
    assert!(p.starts_with("logs") && p.ends_with("engine.log"));
    assert_eq!(log(&path, 1700000000, "SetObjectToken: ok"), Some("[1700000000] SetObjectToken: ok\n".to_string()));
    assert_eq!(log(&path, 0, ""), Some("[0] \n".to_string()));
}

#[test]
fn joined_paths_keep_the_base() {
    let p = assets_dir(None, None, Some("L/".to_string()));
    assert_eq!(p, "L/AzureSapi");
    let mut path: Option<String> = None;
    set_dir(&mut path, "/var/log");
    assert_eq!(path.unwrap(), "/var/log/engine.log");
}
