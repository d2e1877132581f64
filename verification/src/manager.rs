//! The preference manager: loads the layered preference files, resolves the
//! three locale-dependent resource chains, tracks their freshness, and
//! exposes the read/write API the rule engine consumes. All filesystem
//! questions are answered from an [`FsSnapshot`] handed in by the caller.

use vstd::prelude::*;
use crate::fs_model::FsSnapshot;
use crate::loader::{apply_content, load_content};
use crate::prefs::{
    Pref,
    PrefValue,
    Preferences,
    api_defaults,
    api_defaults_spec,
    pref_string,
    user_defaults,
    user_defaults_spec,
};
use crate::resolver::{FatalError, Locations, resolve_chain, spec_resolve};
use crate::text::{join, join_path, str_eq, trim, trim_spec};

verus! {

/// The TTS engine selected by the API preferences.
#[derive(Debug, Clone, Copy, PartialEq, Eq, Structural)]
pub enum TTS {
    NoTTS,
    SSML,
    SAPI5,
}

/// A fallback chain together with the instant it was captured.
pub struct FileAndTime {
    pub files: Locations,
    pub time: Option<u64>,
}

/// Whether every file of the record is unchanged since the capture instant:
/// false as soon as one resolved file is gone or modified after the capture.
/// A record without a captured instant is vacuously up to date.
pub open spec fn spec_fresh(fs: FsSnapshot, ft: FileAndTime) -> bool {
    match ft.time {
        Some(t) => forall|i: int|
            0 <= i < ft.files@.len() ==> fs.is_file(ft.files@[i]) && fs.mtime_of(ft.files@[i])
                <= t,
        None => true,
    }
}

fn check_fresh(fs: &FsSnapshot, ft: &FileAndTime) -> (r: bool)
    requires
        fs.wf(),
    ensures
        r == spec_fresh(*fs, *ft),
{
    match &ft.time {
        None => true,
        Some(t) => {
            let n = ft.files.len();
            let mut i: usize = 0;
            while i < n
                invariant
                    0 <= i <= n,
                    fs.wf(),
                    n == ft.files@.len(),
                    ft.time == Some(*t),
                    forall|j: int|
                        0 <= j < i ==> fs.is_file(ft.files@[j]) && fs.mtime_of(ft.files@[j]) <= *t,
                decreases n - i,
            {
                match ft.files.get(i) {
                    Some(p) => {
                        match fs.mtime(p.as_str()) {
                            Some(m) => {
                                if m > *t {
                                    return false;
                                }
                            },
                            None => {
                                return false;
                            },
                        }
                    },
                    None => {
                        proof {
                            assert(false);
                        }
                        return false;
                    },
                }
                i = i + 1;
            }
            true
        },
    }
}

/// The view of an optional path argument.
pub open spec fn opt_str_view(o: Option<&str>) -> Option<Seq<char>> {
    match o {
        Some(s) => Some(s@),
        None => None,
    }
}

/// The path of the system-level preference file inside the rules directory.
pub open spec fn sys_prefs_path(rules_dir: Seq<char>) -> Seq<char> {
    join_path(rules_dir, "prefs.yaml"@)
}

/// The path of the user-level preference file inside the per-user config
/// directory.
pub open spec fn user_prefs_path(cfg: Seq<char>) -> Seq<char> {
    join_path(cfg, "prefs.yaml"@)
}

/// The preference files that exist, system-level first, then user-level.
pub open spec fn spec_pref_chain(
    fs: FsSnapshot,
    rules_dir: Seq<char>,
    cfg: Option<Seq<char>>,
) -> Seq<Seq<char>> {
    (if fs.is_file(sys_prefs_path(rules_dir)) {
        seq![sys_prefs_path(rules_dir)]
    } else {
        Seq::empty()
    }) + (match cfg {
        Some(c) => if fs.is_file(user_prefs_path(c)) {
            seq![user_prefs_path(c)]
        } else {
            Seq::empty()
        },
        None => Seq::empty(),
    })
}

/// The user preference set after loading: the compiled-in defaults, overlaid
/// by the system-level file, overlaid by the user-level file; a missing or
/// unusable file leaves the accumulated state unchanged.
pub open spec fn spec_loaded_prefs(
    fs: FsSnapshot,
    rules_dir: Seq<char>,
    cfg: Option<Seq<char>>,
) -> Map<Seq<char>, Pref> {
    let m0 = user_defaults_spec();
    let m1 = if fs.is_file(sys_prefs_path(rules_dir)) {
        apply_content(m0, fs.content_of(sys_prefs_path(rules_dir)))
    } else {
        m0
    };
    match cfg {
        Some(c) => if fs.is_file(user_prefs_path(c)) {
            apply_content(m1, fs.content_of(user_prefs_path(c)))
        } else {
            m1
        },
        None => m1,
    }
}

/// The style-rule file name derived from a speech style.
pub open spec fn style_file_name_spec(style: Seq<char>) -> Seq<char> {
    style + "_Rules.yaml"@
}

/// The resolved style-rule chain for a user preference set.
pub open spec fn spec_style_chain(
    fs: FsSnapshot,
    rules_dir: Seq<char>,
    m: Map<Seq<char>, Pref>,
) -> Option<Seq<Seq<char>>> {
    spec_resolve(
        fs,
        rules_dir,
        pref_string(m, "Language"@),
        Some("en"@),
        style_file_name_spec(pref_string(m, "SpeechStyle"@)),
    )
}

/// The resolved unicode-table chain for a user preference set.
pub open spec fn spec_unicode_chain(
    fs: FsSnapshot,
    rules_dir: Seq<char>,
    m: Map<Seq<char>, Pref>,
) -> Option<Seq<Seq<char>>> {
    spec_resolve(fs, rules_dir, pref_string(m, "Language"@), Some("en"@), "unicode.yaml"@)
}

/// The resolved definitions chain for a user preference set.
pub open spec fn spec_defs_chain(
    fs: FsSnapshot,
    rules_dir: Seq<char>,
    m: Map<Seq<char>, Pref>,
) -> Option<Seq<Seq<char>>> {
    spec_resolve(fs, rules_dir, pref_string(m, "Language"@), Some("en"@), "definitions.yaml"@)
}

/// Whether all three resource chains resolve for a user preference set.
pub open spec fn spec_chains_ok(
    fs: FsSnapshot,
    rules_dir: Seq<char>,
    m: Map<Seq<char>, Pref>,
) -> bool {
    &&& spec_style_chain(fs, rules_dir, m) is Some
    &&& spec_unicode_chain(fs, rules_dir, m) is Some
    &&& spec_defs_chain(fs, rules_dir, m) is Some
}

/// The preference manager: the user and API preference sets, and the four
/// tracked resource records.
pub struct PreferenceManager {
    user_prefs: Preferences,
    api_prefs: Preferences,
    pref_files: FileAndTime,
    style: FileAndTime,
    unicode: FileAndTime,
    defs: FileAndTime,
}

impl PreferenceManager {
    /// The user preference set.
    pub closed spec fn user(&self) -> Map<Seq<char>, Pref> {
        self.user_prefs@
    }

    /// The API preference set.
    pub closed spec fn api(&self) -> Map<Seq<char>, Pref> {
        self.api_prefs@
    }

    /// The record of the preference files themselves.
    pub closed spec fn pref_rec(&self) -> FileAndTime {
        self.pref_files
    }

    /// The record of the style-rule files.
    pub closed spec fn style_rec(&self) -> FileAndTime {
        self.style
    }

    /// The record of the unicode-table files.
    pub closed spec fn unicode_rec(&self) -> FileAndTime {
        self.unicode
    }

    /// The record of the definitions files.
    pub closed spec fn defs_rec(&self) -> FileAndTime {
        self.defs
    }

    /// Both preference sets and all four chains are well formed.
    pub closed spec fn wf(&self) -> bool {
        &&& self.user_prefs.wf()
        &&& self.api_prefs.wf()
        &&& self.pref_files.files.wf()
        &&& self.style.files.wf()
        &&& self.unicode.files.wf()
        &&& self.defs.files.wf()
    }

    /// Builds the manager: checks the rules directory, loads the layered
    /// preference files over the compiled-in defaults, resolves the three
    /// locale-dependent resource chains, and captures `now` as the freshness
    /// instant of all four records. Fails with `RulesDirMissing` when the
    /// rules directory does not exist, and with `UnresolvedLocale` when a
    /// resource chain cannot be resolved even through the fallback locale.
    pub fn new(
        fs: &FsSnapshot,
        rules_dir: &str,
        user_config_dir: Option<&str>,
        now: u64,
    ) -> (r: Result<PreferenceManager, FatalError>)
        requires
            fs.wf(),
        ensures
            r is Err <==> (!fs.is_dir(rules_dir@) || !spec_chains_ok(
                *fs,
                rules_dir@,
                spec_loaded_prefs(*fs, rules_dir@, opt_str_view(user_config_dir)),
            )),
            r matches Err(e) ==> (e == FatalError::RulesDirMissing <==> !fs.is_dir(rules_dir@)),
            r matches Ok(m) ==> {
                let loaded = spec_loaded_prefs(*fs, rules_dir@, opt_str_view(user_config_dir));
                &&& m.wf()
                &&& m.user() == loaded
                &&& m.api() == api_defaults_spec()
                &&& m.pref_rec().files@ == spec_pref_chain(
                    *fs,
                    rules_dir@,
                    opt_str_view(user_config_dir),
                )
                &&& Some(m.style_rec().files@) == spec_style_chain(*fs, rules_dir@, loaded)
                &&& Some(m.unicode_rec().files@) == spec_unicode_chain(*fs, rules_dir@, loaded)
                &&& Some(m.defs_rec().files@) == spec_defs_chain(*fs, rules_dir@, loaded)
                &&& m.pref_rec().time == Some(now)
                &&& m.style_rec().time == Some(now)
                &&& m.unicode_rec().time == Some(now)
                &&& m.defs_rec().time == Some(now)
            },
    {
        if !fs.check_dir(rules_dir) {
            return Err(FatalError::RulesDirMissing);
        }
        let ghost cfgv = opt_str_view(user_config_dir);
        let mut user_prefs = user_defaults();
        let mut pref_vec: Vec<String> = Vec::new();
        let sys_path = join(rules_dir, "prefs.yaml");
        if fs.check_file(sys_path.as_str()) {
            let ghost before = pref_vec.deep_view();
            pref_vec.push(sys_path.clone());
            proof {
                assert(pref_vec.deep_view() =~= before.push(sys_prefs_path(rules_dir@)));
            }
            match fs.content(sys_path.as_str()) {
                Some(text) => {
                    let body = text.clone();
                    load_content(&mut user_prefs, body.as_str());
                },
                None => {
                    proof {
                        assert(false);
                    }
                },
            }
        }
        proof {
            let first = if fs.is_file(sys_prefs_path(rules_dir@)) {
                seq![sys_prefs_path(rules_dir@)]
            } else {
                Seq::<Seq<char>>::empty()
            };
            assert(pref_vec.deep_view() =~= first);
        }
        match user_config_dir {
            Some(cfg) => {
                let user_path = join(cfg, "prefs.yaml");
                if fs.check_file(user_path.as_str()) {
                    let ghost before = pref_vec.deep_view();
                    pref_vec.push(user_path.clone());
                    proof {
                        assert(pref_vec.deep_view() =~= before.push(user_prefs_path(cfg@)));
                    }
                    match fs.content(user_path.as_str()) {
                        Some(text) => {
                            let body = text.clone();
                            load_content(&mut user_prefs, body.as_str());
                        },
                        None => {
                            proof {
                                assert(false);
                            }
                        },
                    }
                }
            },
            None => {},
        }
        proof {
            assert(pref_vec.deep_view() =~= spec_pref_chain(*fs, rules_dir@, cfgv));
            assert(user_prefs@ == spec_loaded_prefs(*fs, rules_dir@, cfgv));
        }
        let ghost loaded = user_prefs@;
        let pref_files = FileAndTime { files: Locations::from_vec(pref_vec), time: Some(now) };
        let lang = user_prefs.to_string("Language");
        let mut style_name = user_prefs.to_string("SpeechStyle");
        style_name.append("_Rules.yaml");
        proof {
            assert(style_name@ == style_file_name_spec(pref_string(loaded, "SpeechStyle"@)));
        }
        let style = match resolve_chain(fs, rules_dir, lang.as_str(), Some("en"), style_name.as_str()) {
            Ok(l) => l,
            Err(e) => {
                return Err(e);
            },
        };
        let unicode = match resolve_chain(fs, rules_dir, lang.as_str(), Some("en"), "unicode.yaml") {
            Ok(l) => l,
            Err(e) => {
                return Err(e);
            },
        };
        let defs = match resolve_chain(
            fs,
            rules_dir,
            lang.as_str(),
            Some("en"),
            "definitions.yaml",
        ) {
            Ok(l) => l,
            Err(e) => {
                return Err(e);
            },
        };
        Ok(
            PreferenceManager {
                user_prefs,
                api_prefs: api_defaults(),
                pref_files,
                style: FileAndTime { files: style, time: Some(now) },
                unicode: FileAndTime { files: unicode, time: Some(now) },
                defs: FileAndTime { files: defs, time: Some(now) },
            },
        )
    }

    /// The user preference set overlaid by the API set: the API value wins
    /// where both set a name. Computed fresh on each call.
    pub fn merge_prefs(&self) -> (r: Preferences)
        requires
            self.wf(),
        ensures
            r.wf(),
            r@ == self.user().union_prefer_right(self.api()),
    {
        self.user_prefs.overlay(&self.api_prefs)
    }

    /// Whether every tracked resource file is unchanged since its capture
    /// instant.
    pub fn is_up_to_date(&self, fs: &FsSnapshot) -> (r: bool)
        requires
            fs.wf(),
        ensures
            r == (spec_fresh(*fs, self.pref_rec()) && spec_fresh(*fs, self.style_rec())
                && spec_fresh(*fs, self.unicode_rec()) && spec_fresh(*fs, self.defs_rec())),
    {
        check_fresh(fs, &self.pref_files) && check_fresh(fs, &self.style) && check_fresh(
            fs,
            &self.unicode,
        ) && check_fresh(fs, &self.defs)
    }

    /// The speech rule style file chain.
    pub fn get_style_file(&self) -> (r: &Locations)
        ensures
            r == self.style_rec().files,
    {
        &self.style.files
    }

    /// The unicode table file chain.
    pub fn get_unicode_file(&self) -> (r: &Locations)
        ensures
            r == self.unicode_rec().files,
    {
        &self.unicode.files
    }

    /// The definitions file chain.
    pub fn get_definitions_file(&self) -> (r: &Locations)
        ensures
            r == self.defs_rec().files,
    {
        &self.defs.files
    }

    /// The TTS engine the API preferences name: `ssml` or `sapi5`, anything
    /// else meaning none.
    pub fn get_tts(&self) -> (r: TTS)
        requires
            self.wf(),
        ensures
            r == spec_tts(self.api()),
    {
        let s = self.api_prefs.to_string("TTS");
        if str_eq(s.as_str(), "ssml") {
            TTS::SSML
        } else if str_eq(s.as_str(), "sapi5") {
            TTS::SAPI5
        } else {
            TTS::NoTTS
        }
    }

    /// Sets a text-valued API preference; user preferences and resource
    /// chains are untouched.
    pub fn set_api_string_pref(&mut self, key: String, value: String)
        requires
            old(self).wf(),
        ensures
            final(self).wf(),
            final(self).api() == old(self).api().insert(key@, Pref::Text(value@)),
            final(self).user() == old(self).user(),
            final(self).pref_rec() == old(self).pref_rec(),
            final(self).style_rec() == old(self).style_rec(),
            final(self).unicode_rec() == old(self).unicode_rec(),
            final(self).defs_rec() == old(self).defs_rec(),
    {
        self.api_prefs.insert(key.as_str(), PrefValue::Text(value));
    }

    /// Sets a number-valued API preference, handed in as the number's textual
    /// form; user preferences and resource chains are untouched.
    pub fn set_api_real_pref(&mut self, key: String, value: String)
        requires
            old(self).wf(),
        ensures
            final(self).wf(),
            final(self).api() == old(self).api().insert(key@, Pref::Real(value@)),
            final(self).user() == old(self).user(),
            final(self).pref_rec() == old(self).pref_rec(),
            final(self).style_rec() == old(self).style_rec(),
            final(self).unicode_rec() == old(self).unicode_rec(),
            final(self).defs_rec() == old(self).defs_rec(),
    {
        self.api_prefs.insert(key.as_str(), PrefValue::Real(value));
    }

    /// The current language, as the user preferences hold it.
    pub fn get_language(&self) -> (r: String)
        requires
            self.wf(),
        ensures
            r@ == pref_string(self.user(), "Language"@),
    {
        self.user_prefs.to_string("Language")
    }

    /// The user preference set, for reading.
    pub fn get_user_prefs(&self) -> (r: &Preferences)
        requires
            self.wf(),
        ensures
            r.wf(),
            r@ == self.user(),
    {
        &self.user_prefs
    }

    /// The API preference set, for reading.
    pub fn get_api_prefs(&self) -> (r: &Preferences)
        requires
            self.wf(),
        ensures
            r.wf(),
            r@ == self.api(),
    {
        &self.api_prefs
    }

    /// Sets a user preference to the trimmed text value. Setting `Language`
    /// or `SpeechStyle` re-resolves the three resource chains against the
    /// snapshot and captures `now` for them; a fatal resolution failure
    /// leaves every chain as it was and reports the error to the caller.
    pub fn set_user_prefs(
        &mut self,
        fs: &FsSnapshot,
        rules_dir: &str,
        name: &str,
        value: &str,
        now: u64,
    ) -> (r: Result<(), FatalError>)
        requires
            old(self).wf(),
            fs.wf(),
        ensures
            final(self).wf(),
            final(self).user() == old(self).user().insert(name@, Pref::Text(trim_spec(value@))),
            final(self).api() == old(self).api(),
            final(self).pref_rec() == old(self).pref_rec(),
            (name@ == "Language"@ || name@ == "SpeechStyle"@) ==> {
                &&& r is Err <==> (!fs.is_dir(rules_dir@) || !spec_chains_ok(
                    *fs,
                    rules_dir@,
                    final(self).user(),
                ))
                &&& (r matches Err(e) ==> (e == FatalError::RulesDirMissing <==> !fs.is_dir(
                    rules_dir@,
                )))
                &&& (r is Err ==> final(self).style_rec() == old(self).style_rec())
                &&& (r is Err ==> final(self).unicode_rec() == old(self).unicode_rec())
                &&& (r is Err ==> final(self).defs_rec() == old(self).defs_rec())
                &&& (r is Ok ==> {
                    &&& Some(final(self).style_rec().files@) == spec_style_chain(
                        *fs,
                        rules_dir@,
                        final(self).user(),
                    )
                    &&& Some(final(self).unicode_rec().files@) == spec_unicode_chain(
                        *fs,
                        rules_dir@,
                        final(self).user(),
                    )
                    &&& Some(final(self).defs_rec().files@) == spec_defs_chain(
                        *fs,
                        rules_dir@,
                        final(self).user(),
                    )
                    &&& final(self).style_rec().time == Some(now)
                    &&& final(self).unicode_rec().time == Some(now)
                    &&& final(self).defs_rec().time == Some(now)
                })
            },
            !(name@ == "Language"@ || name@ == "SpeechStyle"@) ==> {
                &&& r is Ok
                &&& final(self).style_rec() == old(self).style_rec()
                &&& final(self).unicode_rec() == old(self).unicode_rec()
                &&& final(self).defs_rec() == old(self).defs_rec()
            },
    {
        let tv = trim(value);
        self.user_prefs.insert(name, PrefValue::Text(tv));
        if str_eq(name, "Language") || str_eq(name, "SpeechStyle") {
            if !fs.check_dir(rules_dir) {
                return Err(FatalError::RulesDirMissing);
            }
            let lang = self.user_prefs.to_string("Language");
            let mut style_name = self.user_prefs.to_string("SpeechStyle");
            style_name.append("_Rules.yaml");
            proof {
                assert(style_name@ == style_file_name_spec(
                    pref_string(self.user_prefs@, "SpeechStyle"@),
                ));
            }
            let style = match resolve_chain(
                fs,
                rules_dir,
                lang.as_str(),
                Some("en"),
                style_name.as_str(),
            ) {
                Ok(l) => l,
                Err(e) => {
                    return Err(e);
                },
            };
            let unicode = match resolve_chain(
                fs,
                rules_dir,
                lang.as_str(),
                Some("en"),
                "unicode.yaml",
            ) {
                Ok(l) => l,
                Err(e) => {
                    return Err(e);
                },
            };
            let defs = match resolve_chain(
                fs,
                rules_dir,
                lang.as_str(),
                Some("en"),
                "definitions.yaml",
            ) {
                Ok(l) => l,
                Err(e) => {
                    return Err(e);
                },
            };
            self.style = FileAndTime { files: style, time: Some(now) };
            self.unicode = FileAndTime { files: unicode, time: Some(now) };
            self.defs = FileAndTime { files: defs, time: Some(now) };
            Ok(())
        } else {
            Ok(())
        }
    }
}

/// Right after a successful load every record is fresh: the capture instant
/// is `now`, every chain path is a file of the snapshot the manager was built
/// from, and no file of that snapshot is newer than `now` — so
/// `is_up_to_date` holds on it.
pub proof fn lemma_up_to_date_after_load(
    fs: FsSnapshot,
    rules_dir: Seq<char>,
    cfg: Option<Seq<char>>,
    m: PreferenceManager,
    now: u64,
)
    requires
        m.pref_rec().files@ == spec_pref_chain(fs, rules_dir, cfg),
        Some(m.style_rec().files@) == spec_style_chain(fs, rules_dir, m.user()),
        Some(m.unicode_rec().files@) == spec_unicode_chain(fs, rules_dir, m.user()),
        Some(m.defs_rec().files@) == spec_defs_chain(fs, rules_dir, m.user()),
        m.pref_rec().time == Some(now),
        m.style_rec().time == Some(now),
        m.unicode_rec().time == Some(now),
        m.defs_rec().time == Some(now),
        forall|p: Seq<char>| #![auto] fs.is_file(p) ==> fs.mtime_of(p) <= now,
    ensures
        spec_fresh(fs, m.pref_rec()),
        spec_fresh(fs, m.style_rec()),
        spec_fresh(fs, m.unicode_rec()),
        spec_fresh(fs, m.defs_rec()),
{
    let lang = pref_string(m.user(), "Language"@);
    crate::resolver::lemma_resolved_files_exist(
        fs,
        rules_dir,
        lang,
        Some("en"@),
        style_file_name_spec(pref_string(m.user(), "SpeechStyle"@)),
    );
    crate::resolver::lemma_resolved_files_exist(fs, rules_dir, lang, Some("en"@), "unicode.yaml"@);
    crate::resolver::lemma_resolved_files_exist(
        fs,
        rules_dir,
        lang,
        Some("en"@),
        "definitions.yaml"@,
    );
    let sc = m.style_rec().files@;
    assert(spec_style_chain(fs, rules_dir, m.user()) matches Some(c) && c == sc);
    assert(forall|i: int| #![auto] 0 <= i < sc.len() ==> fs.is_file(sc[i]));
    let uc = m.unicode_rec().files@;
    assert(spec_unicode_chain(fs, rules_dir, m.user()) matches Some(c) && c == uc);
    assert(forall|i: int| #![auto] 0 <= i < uc.len() ==> fs.is_file(uc[i]));
    let dc = m.defs_rec().files@;
    assert(spec_defs_chain(fs, rules_dir, m.user()) matches Some(c) && c == dc);
    assert(forall|i: int| #![auto] 0 <= i < dc.len() ==> fs.is_file(dc[i]));
    let pc = spec_pref_chain(fs, rules_dir, cfg);
    assert forall|i: int| 0 <= i < pc.len() implies fs.is_file(pc[i]) by {
        let first = if fs.is_file(sys_prefs_path(rules_dir)) {
            seq![sys_prefs_path(rules_dir)]
        } else {
            Seq::<Seq<char>>::empty()
        };
        if i < first.len() {
            assert(pc[i] == sys_prefs_path(rules_dir));
        } else {
            match cfg {
                Some(c) => {
                    assert(pc[i] == user_prefs_path(c));
                },
                None => {},
            }
        }
    }
}

/// A record goes stale as soon as one of its resolved files is removed or
/// modified after the capture instant.
pub proof fn lemma_stale_after_modification(fs: FsSnapshot, ft: FileAndTime, i: int, t: u64)
    requires
        ft.time == Some(t),
        0 <= i < ft.files@.len(),
        fs.is_file(ft.files@[i]) ==> fs.mtime_of(ft.files@[i]) > t,
    ensures
        !spec_fresh(fs, ft),
{
}

/// The TTS engine a given API preference set names.
pub open spec fn spec_tts(api: Map<Seq<char>, Pref>) -> TTS {
    if pref_string(api, "TTS"@) == "ssml"@ {
        TTS::SSML
    } else if pref_string(api, "TTS"@) == "sapi5"@ {
        TTS::SAPI5
    } else {
        TTS::NoTTS
    }
}

} // verus!
