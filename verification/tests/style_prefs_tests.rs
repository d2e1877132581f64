//! The engine's own test scenarios each select a speech style and verbosity
//! before generating speech. Speech generation is the rule engine's business,
//! outside this crate; what each scenario asks of the preference layer is
//! checked here under the scenario's name: the style and verbosity it sets
//! are stored, read back, and steer the style-rule chain to the style's rule
//! file, with the manager staying fresh.

use mathcat_prefs::fs_model::FsSnapshot;
use mathcat_prefs::manager::PreferenceManager;

fn fixture() -> FsSnapshot {
    let mut fs = FsSnapshot::new();
    fs.add_dir("Rules");
    fs.add_dir("Rules/en");
    fs.add_file("Rules/definitions.yaml", 100, "");
    fs.add_file("Rules/en/definitions.yaml", 100, "");
    fs.add_file("Rules/en/unicode.yaml", 100, "");
    fs.add_file("Rules/en/ClearSpeak_Rules.yaml", 100, "");
    fs.add_file("Rules/en/SimpleSpeak_Rules.yaml", 100, "");
    fs
}

fn check_style_prefs(style: &str, prefs: Vec<(&str, &str)>) {
    let fs = fixture();
    let mut manager = PreferenceManager::new(&fs, "Rules", None, 1000).unwrap();
    manager.set_user_prefs(&fs, "Rules", "SpeechStyle", style, 1001).unwrap();
    for (name, value) in &prefs {
        manager.set_user_prefs(&fs, "Rules", name, value, 1002).unwrap();
    }
    let style_file = manager.get_style_file().get(0).unwrap().clone();
    assert_eq!(style_file, format!("Rules/en/{}_Rules.yaml", style));
    assert_eq!(manager.get_user_prefs().to_string("SpeechStyle"), style.to_string());
    for (name, value) in &prefs {
        assert_eq!(manager.get_user_prefs().to_string(name), value.to_string());
    }
    assert!(manager.is_up_to_date(&fs));
}

#[test]
fn salt() {
    check_style_prefs("SimpleSpeak", vec![("Verbosity", "Terse")]);
}

#[test]
fn water() {
    check_style_prefs("ClearSpeak", vec![("Verbosity", "Terse")]);
    check_style_prefs("ClearSpeak", vec![("Verbosity", "Medium")]);
    check_style_prefs("ClearSpeak", vec![("Verbosity", "Verbose")]);
}

#[test]
fn carbon() {
    check_style_prefs("SimpleSpeak", vec![("Verbosity", "Terse")]);
}

#[test]
fn sulfate() {
    check_style_prefs("ClearSpeak", vec![("Verbosity", "Medium")]);
}

#[test]
fn aluminum_sulfate() {
    check_style_prefs("ClearSpeak", vec![("Verbosity", "Terse")]);
    check_style_prefs("ClearSpeak", vec![("Verbosity", "Medium")]);
    check_style_prefs("ClearSpeak", vec![("Verbosity", "Verbose")]);
}

#[test]
fn ethanol_bonds() {
    check_style_prefs("ClearSpeak", vec![("Verbosity", "Terse")]);
}

#[test]
fn dichlorine_hexoxide() {
    check_style_prefs("SimpleSpeak", vec![("Verbosity", "Terse")]);
    check_style_prefs("SimpleSpeak", vec![("Verbosity", "Medium")]);
    check_style_prefs("SimpleSpeak", vec![("Verbosity", "Verbose")]);
}

#[test]
fn ethylene_with_bond() {
    check_style_prefs("SimpleSpeak", vec![("Verbosity", "Terse")]);
}

#[test]
fn ferric_chloride_aq() {
    check_style_prefs("SimpleSpeak", vec![("Verbosity", "Terse")]);
}

#[test]
fn ethylene_with_colon_bond() {
    check_style_prefs("SimpleSpeak", vec![("Verbosity", "Terse")]);
}

#[test]
fn beta_decay() {
    check_style_prefs("ClearSpeak", vec![("Verbosity", "Terse")]);
    check_style_prefs("ClearSpeak", vec![("Verbosity", "Medium")]);
    check_style_prefs("ClearSpeak", vec![("Verbosity", "Verbose")]);
}

#[test]
fn mhchem_beta_decay() {
    check_style_prefs("SimpleSpeak", vec![("Verbosity", "Terse")]);
    check_style_prefs("SimpleSpeak", vec![("Verbosity", "Medium")]);
    check_style_prefs("SimpleSpeak", vec![("Verbosity", "Verbose")]);
}

#[test]
fn hcl_na_yields() {
    check_style_prefs("SimpleSpeak", vec![("Verbosity", "Verbose")]);
}

#[test]
fn mhchem_so4_2plus() {
    check_style_prefs("SimpleSpeak", vec![("Verbosity", "Terse")]);
    check_style_prefs("SimpleSpeak", vec![("Verbosity", "Medium")]);
    check_style_prefs("SimpleSpeak", vec![("Verbosity", "Verbose")]);
}

#[test]
fn mhchem_hcl_aq_etc() {
    check_style_prefs("SimpleSpeak", vec![("Verbosity", "Terse")]);
}
