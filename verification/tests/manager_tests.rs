use mathcat_prefs::fs_model::FsSnapshot;
use mathcat_prefs::manager::{PreferenceManager, TTS};
use mathcat_prefs::resolver::FatalError;

const PREFS_YAML: &str = "Speech:\n  SubjectArea: general\n  ClearSpeak:\n    AbsoluteValue: Auto\nNavigation:\n  ResetStartMode: false\nBraille:\n  Code: Nemeth\n";

// The rules tree of the resolver fixture, with a system-level prefs.yaml.
fn fixture_with(style_mtime: u64) -> FsSnapshot {
    let mut fs = FsSnapshot::new();
    fs.add_dir("Rules");
    fs.add_dir("Rules/en");
    fs.add_dir("Rules/zz");
    fs.add_dir("Rules/zz/aa");
    fs.add_file("Rules/prefs.yaml", 100, PREFS_YAML);
    fs.add_file("Rules/definitions.yaml", 100, "");
    fs.add_file("Rules/zz/definitions.yaml", 100, "");
    fs.add_file("Rules/zz/aa/definitions.yaml", 100, "");
    fs.add_file("Rules/zz/unicode.yaml", 100, "");
    fs.add_file("Rules/en/unicode.yaml", 100, "");
    fs.add_file("Rules/en/definitions.yaml", 100, "");
    fs.add_file("Rules/zz/ClearSpeak_Rules.yaml", style_mtime, "");
    fs.add_file("Rules/zz/aa/ClearSpeak_Rules.yaml", 100, "");
    fs.add_file("Rules/en/ClearSpeak_Rules.yaml", 100, "");
    fs
}

fn fixture() -> FsSnapshot {
    fixture_with(100)
}

fn rel_path(p: Option<&String>) -> Option<String> {
    p.map(|s| s.strip_prefix("Rules/").unwrap().to_string())
}

#[test]
fn test_prefs() {
    let fs = fixture();
    let pref_manager = PreferenceManager::new(&fs, "Rules", None, 1000).unwrap();
    let prefs = pref_manager.get_user_prefs();
    assert_eq!(prefs.to_string("Language").as_str(), "en");
    assert_eq!(prefs.to_string("SubjectArea").as_str(), "general");
    assert_eq!(prefs.to_string("ClearSpeak_AbsoluteValue").as_str(), "Auto");
    assert_eq!(prefs.to_string("ResetStartMode").as_str(), "false");
    assert_eq!(prefs.to_string("Code").as_str(), "Nemeth");
    assert_eq!(prefs.to_string("X_Y_Z").as_str(), "");
}

#[test]
fn test_language_change() {
    let fs = fixture();
    let mut pref_manager = PreferenceManager::new(&fs, "Rules", None, 1000).unwrap();
    assert_eq!(
        rel_path(pref_manager.get_style_file().get(0)),
        Some("en/ClearSpeak_Rules.yaml".to_string())
    );

    pref_manager.set_user_prefs(&fs, "Rules", "Language", "zz", 1001).unwrap();
    assert_eq!(
        rel_path(pref_manager.get_style_file().get(0)),
        Some("zz/ClearSpeak_Rules.yaml".to_string())
    );
}

#[test]
fn test_is_up_to_date() {
    let fs = fixture();
    let mut pref_manager = PreferenceManager::new(&fs, "Rules", None, 1000).unwrap();
    pref_manager.set_user_prefs(&fs, "Rules", "Language", "zz-ab", 1001).unwrap();
    assert!(pref_manager.is_up_to_date(&fs));
}

#[test]
fn stale_after_file_modification() {
    let fs = fixture();
    let mut pref_manager = PreferenceManager::new(&fs, "Rules", None, 1000).unwrap();
    pref_manager.set_user_prefs(&fs, "Rules", "Language", "zz-aa", 1001).unwrap();
    assert!(pref_manager.is_up_to_date(&fs));

    // The same tree, but the first style file was touched after the capture.
    let touched = fixture_with(2000);
    assert!(!pref_manager.is_up_to_date(&touched));
}

#[test]
fn missing_rules_dir_is_fatal() {
    let fs = FsSnapshot::new();
    let r = PreferenceManager::new(&fs, "Rules", None, 1000);
    assert_eq!(r.err(), Some(FatalError::RulesDirMissing));
}

#[test]
fn user_file_overrides_system_file() {
    let mut fs = fixture();
    fs.add_dir("Config");
    fs.add_file(
        "Config/prefs.yaml",
        100,
        "Speech:\n  SubjectArea: chemistry\n  UserOnly: yes\n",
    );
    let pref_manager = PreferenceManager::new(&fs, "Rules", Some("Config"), 1000).unwrap();
    let prefs = pref_manager.get_user_prefs();
    // The later, user-level file wins; untouched keys of the system file survive.
    assert_eq!(prefs.to_string("SubjectArea").as_str(), "chemistry");
    assert_eq!(prefs.to_string("UserOnly").as_str(), "yes");
    assert_eq!(prefs.to_string("Code").as_str(), "Nemeth");
}

#[test]
fn get_tts_reads_api_prefs() {
    let fs = fixture();
    let mut pref_manager = PreferenceManager::new(&fs, "Rules", None, 1000).unwrap();
    assert_eq!(pref_manager.get_tts(), TTS::NoTTS);
    pref_manager.set_api_string_pref("TTS".to_string(), "ssml".to_string());
    assert_eq!(pref_manager.get_tts(), TTS::SSML);
    pref_manager.set_api_string_pref("TTS".to_string(), "sapi5".to_string());
    assert_eq!(pref_manager.get_tts(), TTS::SAPI5);
    pref_manager.set_api_string_pref("TTS".to_string(), "bogus".to_string());
    assert_eq!(pref_manager.get_tts(), TTS::NoTTS);
}

#[test]
fn merge_prefs_prefers_api() {
    let fs = fixture();
    let mut pref_manager = PreferenceManager::new(&fs, "Rules", None, 1000).unwrap();
    pref_manager.set_api_string_pref("Language".to_string(), "fr".to_string());
    let merged = pref_manager.merge_prefs();
    assert_eq!(merged.to_string("Language").as_str(), "fr");
    // The user set itself is untouched.
    assert_eq!(pref_manager.get_language().as_str(), "en");
    // Keys only the user set holds survive the merge.
    assert_eq!(merged.to_string("Code").as_str(), "Nemeth");
    // API defaults are present in the merge.
    assert_eq!(merged.to_string("Rate").as_str(), "180.0");
}

#[test]
fn api_defaults_are_set() {
    let fs = fixture();
    let pref_manager = PreferenceManager::new(&fs, "Rules", None, 1000).unwrap();
    assert_eq!(pref_manager.get_api_prefs().to_string("TTS").as_str(), "none");
    assert_eq!(pref_manager.get_api_prefs().to_string("Rate").as_str(), "180.0");
    assert_eq!(pref_manager.get_api_prefs().to_string("Volume").as_str(), "100.0");
    assert_eq!(pref_manager.get_api_prefs().to_string("Voice").as_str(), "none");
}

#[test]
fn set_api_real_pref_stores_text_form() {
    let fs = fixture();
    let mut pref_manager = PreferenceManager::new(&fs, "Rules", None, 1000).unwrap();
    pref_manager.set_api_real_pref("Rate".to_string(), "90.5".to_string());
    assert_eq!(pref_manager.get_api_prefs().to_string("Rate").as_str(), "90.5");
}

#[test]
fn language_change_to_unknown_is_fatal_and_keeps_chains() {
    let fs = fixture();
    let mut pref_manager = PreferenceManager::new(&fs, "Rules", None, 1000).unwrap();
    let r = pref_manager.set_user_prefs(&fs, "Rules", "SpeechStyle", "NoSuchStyle", 1001);
    assert_eq!(r.err(), Some(FatalError::UnresolvedLocale));
    // The chains are the ones resolved before the failed change.
    assert_eq!(
        rel_path(pref_manager.get_style_file().get(0)),
        Some("en/ClearSpeak_Rules.yaml".to_string())
    );
}
