use mathcat_prefs::loader::load_content;
use mathcat_prefs::prefs::{user_defaults, PrefValue, Preferences};
use mathcat_prefs::text::i64_to_string;

fn loaded(texts: &[&str]) -> Preferences {
    let mut prefs = user_defaults();
    for t in texts {
        load_content(&mut prefs, t);
    }
    prefs
}

#[test]
fn later_file_overrides_earlier_key() {
    // File A defines K=1 (and J=3); file B, applied later, defines K=2.
    let a = "Speech:\n  K: 1\n  J: 3\n";
    let b = "Speech:\n  K: 2\n";
    let prefs = loaded(&[a, b]);
    assert_eq!(prefs.to_string("K").as_str(), "2");
    // Keys unique to the earlier file survive.
    assert_eq!(prefs.to_string("J").as_str(), "3");
}

#[test]
fn nested_mapping_flattens_with_prefix() {
    let prefs = loaded(&["Speech:\n  Foo:\n    Bar: x\n"]);
    assert_eq!(prefs.to_string("Foo_Bar").as_str(), "x");
    // The bare inner key is not set on its own.
    assert_eq!(prefs.to_string("Bar").as_str(), "");
}

#[test]
fn unparseable_file_keeps_prior_state() {
    let a = "Speech:\n  K: 1\n";
    let broken = "Speech: [unclosed\n  nonsense: ::\n";
    let prefs = loaded(&[a, broken]);
    assert_eq!(prefs.to_string("K").as_str(), "1");
    assert_eq!(prefs.to_string("Language").as_str(), "en");
}

#[test]
fn multi_document_file_is_discarded() {
    let a = "Speech:\n  K: 1\n";
    let two_docs = "Speech:\n  K: 9\n---\nSpeech:\n  K: 8\n";
    let prefs = loaded(&[a, two_docs]);
    assert_eq!(prefs.to_string("K").as_str(), "1");
}

#[test]
fn sequence_value_skips_only_that_key() {
    let prefs = loaded(&["Speech:\n  Bad: [1, 2]\n  Good: ok\n"]);
    assert_eq!(prefs.to_string("Bad").as_str(), "");
    assert_eq!(prefs.to_string("Good").as_str(), "ok");
}

#[test]
fn non_mapping_namespace_is_skipped() {
    let prefs = loaded(&["Speech: 5\nNavigation:\n  N: 1\n"]);
    // The malformed Speech namespace contributes nothing; Navigation still applies.
    assert_eq!(prefs.to_string("N").as_str(), "1");
}

#[test]
fn text_values_are_trimmed() {
    let prefs = loaded(&["Speech:\n  T: '  padded  '\n"]);
    assert_eq!(prefs.to_string("T").as_str(), "padded");
}

#[test]
fn scalar_shapes_render_as_text() {
    let prefs = loaded(&["Speech:\n  B: true\n  I: 42\n  N: -7\n  R: 1.5\n"]);
    assert_eq!(prefs.to_string("B").as_str(), "true");
    assert_eq!(prefs.to_string("I").as_str(), "42");
    assert_eq!(prefs.to_string("N").as_str(), "-7");
    assert_eq!(prefs.to_string("R").as_str(), "1.5");
}

#[test]
fn unrecognized_namespace_is_ignored() {
    let prefs = loaded(&["Sound:\n  K: 1\n"]);
    assert_eq!(prefs.to_string("K").as_str(), "");
}

#[test]
fn decimal_rendering_is_exact() {
    assert_eq!(i64_to_string(0).as_str(), "0");
    assert_eq!(i64_to_string(7).as_str(), "7");
    assert_eq!(i64_to_string(120).as_str(), "120");
    assert_eq!(i64_to_string(-45).as_str(), "-45");
    assert_eq!(i64_to_string(i64::MAX).as_str(), "9223372036854775807");
    assert_eq!(i64_to_string(i64::MIN).as_str(), "-9223372036854775808");
}

#[test]
fn direct_preference_values() {
    let mut prefs = user_defaults();
    prefs.insert("Volume", PrefValue::Int(11));
    assert_eq!(prefs.to_string("Volume").as_str(), "11");
    prefs.insert("Volume", PrefValue::Real("10.5".to_string()));
    assert_eq!(prefs.to_string("Volume").as_str(), "10.5");
    prefs.insert("Blind", PrefValue::Bool(false));
    assert_eq!(prefs.to_string("Blind").as_str(), "false");
}
