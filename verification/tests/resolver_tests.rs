use mathcat_prefs::fs_model::FsSnapshot;
use mathcat_prefs::resolver::{resolve_chain, FatalError, Locations};

// The fixture mirrors a rules tree with subdirectories `zz` and `zz/aa` and
// no `zz/ab`: definitions.yaml sits in the root, zz and zz/aa directories;
// unicode.yaml in zz and en; ClearSpeak_Rules.yaml in en, zz and zz/aa.
fn fixture() -> FsSnapshot {
    let mut fs = FsSnapshot::new();
    fs.add_dir("Rules");
    fs.add_dir("Rules/en");
    fs.add_dir("Rules/zz");
    fs.add_dir("Rules/zz/aa");
    fs.add_file("Rules/definitions.yaml", 100, "");
    fs.add_file("Rules/zz/definitions.yaml", 100, "");
    fs.add_file("Rules/zz/aa/definitions.yaml", 100, "");
    fs.add_file("Rules/zz/unicode.yaml", 100, "");
    fs.add_file("Rules/en/unicode.yaml", 100, "");
    fs.add_file("Rules/en/definitions.yaml", 100, "");
    fs.add_file("Rules/zz/ClearSpeak_Rules.yaml", 100, "");
    fs.add_file("Rules/zz/aa/ClearSpeak_Rules.yaml", 100, "");
    fs.add_file("Rules/en/ClearSpeak_Rules.yaml", 100, "");
    fs
}

// Strip the leading "Rules/" from a resolved path.
fn rel_path(p: Option<&String>) -> Option<String> {
    p.map(|s| s.strip_prefix("Rules/").unwrap().to_string())
}

fn resolve(fs: &FsSnapshot, lang: &str, file: &str) -> Locations {
    resolve_chain(fs, "Rules", lang, Some("en"), file).unwrap()
}

#[test]
fn find_simple_style() {
    let fs = fixture();
    let style = resolve(&fs, "en", "ClearSpeak_Rules.yaml");
    assert_eq!(rel_path(style.get(0)), Some("en/ClearSpeak_Rules.yaml".to_string()));
}

#[test]
fn find_style_other_language() {
    let fs = fixture();
    let style = resolve(&fs, "zz", "ClearSpeak_Rules.yaml");
    assert_eq!(rel_path(style.get(0)), Some("zz/ClearSpeak_Rules.yaml".to_string()));
}

#[test]
fn find_unicode_files() {
    let fs = fixture();
    let style = resolve(&fs, "zz-aa", "ClearSpeak_Rules.yaml");
    assert_eq!(rel_path(style.get(0)), Some("zz/ClearSpeak_Rules.yaml".to_string()));
    assert_eq!(rel_path(style.get(1)), Some("zz/aa/ClearSpeak_Rules.yaml".to_string()));
}

#[test]
fn find_style_no_sublanguage() {
    let fs = fixture();
    let style = resolve(&fs, "zz-ab", "ClearSpeak_Rules.yaml");
    assert_eq!(rel_path(style.get(0)), Some("zz/ClearSpeak_Rules.yaml".to_string()));
}

#[test]
fn found_all_files() {
    fn assert_helper(count: usize, correct: usize, file_name: &str) {
        assert_eq!(
            count, correct,
            "In looking for '{}', found {} files, should have found {}",
            file_name, count, correct
        );
    }

    let fs = fixture();
    let style = resolve(&fs, "zz-aa", "ClearSpeak_Rules.yaml");
    let unicode = resolve(&fs, "zz-aa", "unicode.yaml");
    let defs = resolve(&fs, "zz-aa", "definitions.yaml");
    assert_helper(style.len(), 2, "ClearSpeak_Rules.yaml");
    assert_helper(unicode.len(), 1, "unicode.yaml");
    assert_helper(defs.len(), 3, "definitions.yaml");

    let style = resolve(&fs, "zz-ab", "ClearSpeak_Rules.yaml");
    let unicode = resolve(&fs, "zz-ab", "unicode.yaml");
    let defs = resolve(&fs, "zz-ab", "definitions.yaml");
    assert_helper(style.len(), 1, "ClearSpeak_Rules.yaml");
    assert_helper(unicode.len(), 1, "unicode.yaml");
    assert_helper(defs.len(), 2, "definitions.yaml");
}

#[test]
fn file_found_order() {
    let fs = fixture();
    let defs = resolve(&fs, "zz-aa", "definitions.yaml");
    assert_eq!(rel_path(defs.get(0)).unwrap(), "definitions.yaml".to_string());
    assert_eq!(rel_path(defs.get(1)).unwrap(), "zz/definitions.yaml".to_string());
    assert_eq!(rel_path(defs.get(2)).unwrap(), "zz/aa/definitions.yaml".to_string());
    assert!(defs.get(3).is_none(), "Should not be any files left");
}

#[test]
fn missing_region_yields_existing_levels_in_order() {
    let fs = fixture();
    let defs = resolve(&fs, "zz-ab", "definitions.yaml");
    assert_eq!(defs.len(), 2);
    assert_eq!(rel_path(defs.get(0)), Some("definitions.yaml".to_string()));
    assert_eq!(rel_path(defs.get(1)), Some("zz/definitions.yaml".to_string()));
}

#[test]
fn deep_locale_keeps_three_most_specific() {
    let mut fs = FsSnapshot::new();
    fs.add_dir("Rules");
    fs.add_dir("Rules/a");
    fs.add_dir("Rules/a/b");
    fs.add_dir("Rules/a/b/c");
    fs.add_file("Rules/definitions.yaml", 100, "");
    fs.add_file("Rules/a/definitions.yaml", 100, "");
    fs.add_file("Rules/a/b/definitions.yaml", 100, "");
    fs.add_file("Rules/a/b/c/definitions.yaml", 100, "");
    let defs = resolve(&fs, "a-b-c", "definitions.yaml");
    assert_eq!(defs.len(), 3);
    assert_eq!(rel_path(defs.get(0)), Some("a/definitions.yaml".to_string()));
    assert_eq!(rel_path(defs.get(1)), Some("a/b/definitions.yaml".to_string()));
    assert_eq!(rel_path(defs.get(2)), Some("a/b/c/definitions.yaml".to_string()));
}

#[test]
fn unknown_language_uses_fallback() {
    let fs = fixture();
    let style = resolve(&fs, "qq", "ClearSpeak_Rules.yaml");
    assert_eq!(rel_path(style.get(0)), Some("en/ClearSpeak_Rules.yaml".to_string()));
    assert_eq!(style.len(), 1);
}

#[test]
fn unknown_language_and_fallback_is_fatal() {
    let fs = fixture();
    let r = resolve_chain(&fs, "Rules", "qq", Some("ww"), "definitions.yaml");
    assert_eq!(r.err(), Some(FatalError::UnresolvedLocale));
}

#[test]
fn file_nowhere_is_fatal_without_fallback() {
    let fs = fixture();
    let r = resolve_chain(&fs, "Rules", "zz", None, "missing.yaml");
    assert_eq!(r.err(), Some(FatalError::UnresolvedLocale));
}

#[test]
fn file_nowhere_retries_fallback() {
    let mut fs = fixture();
    fs.add_file("Rules/en/only_en.yaml", 100, "");
    let loc = resolve_chain(&fs, "Rules", "zz", Some("en"), "only_en.yaml").unwrap();
    assert_eq!(rel_path(loc.get(0)), Some("en/only_en.yaml".to_string()));
}
