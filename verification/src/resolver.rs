//! The locale-directory fallback resolver. Given a root directory, a locale
//! tag and a file name, it descends the directory tree one locale segment at
//! a time, walks back up collecting every level that holds the file, and
//! yields the found paths ordered general to specific. A wholly unknown
//! locale, or a file found nowhere, is retried once with the fallback locale;
//! failure after that is fatal.

use vstd::prelude::*;
use crate::fs_model::FsSnapshot;
use crate::text::{join, join_path, split_on, split_str};

verus! {

/// The unrecoverable outcomes: the engine has no baseline resources.
#[derive(Debug, Clone, Copy, PartialEq, Eq, Structural)]
pub enum FatalError {
    /// The root rules directory does not exist.
    RulesDirMissing,
    /// No resource file was found for the locale, even after the fallback
    /// retry.
    UnresolvedLocale,
}

/// An ordered list of found resource paths, general to specific, at most
/// three entries.
pub struct Locations {
    files: Vec<String>,
}

impl View for Locations {
    type V = Seq<Seq<char>>;

    closed spec fn view(&self) -> Seq<Seq<char>> {
        self.files.deep_view()
    }
}

impl Locations {
    /// At most three paths are recorded.
    pub open spec fn wf(&self) -> bool {
        self@.len() <= 3
    }

    pub(crate) fn from_vec(files: Vec<String>) -> (r: Locations)
        requires
            files.deep_view().len() <= 3,
        ensures
            r.wf(),
            r@ == files.deep_view(),
    {
        Locations { files }
    }

    /// How many paths were found.
    pub fn len(&self) -> (r: usize)
        ensures
            r == self@.len(),
    {
        self.files.len()
    }

    /// The path at rank `i`, counted from the most general.
    pub fn get(&self, i: usize) -> (r: Option<&String>)
        ensures
            i < self@.len() ==> (r matches Some(s) && s@ == self@[i as int]),
            i >= self@.len() ==> r is None,
    {
        if i < self.files.len() {
            Some(&self.files[i])
        } else {
            None
        }
    }
}

/// The directory path of the first `d` locale segments below the root.
pub open spec fn level_path(root: Seq<char>, segs: Seq<Seq<char>>, d: int) -> Seq<char>
    decreases d,
{
    if d <= 0 {
        root
    } else {
        join_path(level_path(root, segs, d - 1), segs[d - 1])
    }
}

/// The deepest segment count, from `d` on, whose directories all exist.
pub open spec fn ed_from(fs: FsSnapshot, root: Seq<char>, segs: Seq<Seq<char>>, d: int) -> int
    decreases segs.len() - d,
{
    if d >= segs.len() {
        d
    } else if fs.is_dir(level_path(root, segs, d + 1)) {
        ed_from(fs, root, segs, d + 1)
    } else {
        d
    }
}

/// How many leading locale segments have an existing directory.
pub open spec fn existing_depth(fs: FsSnapshot, root: Seq<char>, segs: Seq<Seq<char>>) -> int {
    ed_from(fs, root, segs, 0)
}

/// The deepest level the file walk starts from: one past the existing
/// directories when a segment is missing.
pub open spec fn walk_depth(fs: FsSnapshot, root: Seq<char>, segs: Seq<Seq<char>>) -> int {
    if existing_depth(fs, root, segs) == segs.len() {
        segs.len() as int
    } else {
        existing_depth(fs, root, segs) + 1
    }
}

/// The paths of levels `0..=d` that hold the file, most general first.
pub open spec fn found_upto(
    fs: FsSnapshot,
    root: Seq<char>,
    segs: Seq<Seq<char>>,
    file: Seq<char>,
    d: int,
) -> Seq<Seq<char>>
    decreases d + 1,
{
    if d < 0 {
        Seq::empty()
    } else {
        found_upto(fs, root, segs, file, d - 1) + if fs.is_file(
            join_path(level_path(root, segs, d), file),
        ) {
            seq![join_path(level_path(root, segs, d), file)]
        } else {
            Seq::empty()
        }
    }
}

/// Every level of the walk that holds the file, most general first.
pub open spec fn found_files(
    fs: FsSnapshot,
    root: Seq<char>,
    segs: Seq<Seq<char>>,
    file: Seq<char>,
) -> Seq<Seq<char>> {
    found_upto(fs, root, segs, file, walk_depth(fs, root, segs))
}

/// The chain kept from the found paths: the three most specific, in their
/// general-to-specific order.
pub open spec fn chain_of(found: Seq<Seq<char>>) -> Seq<Seq<char>> {
    if found.len() <= 3 {
        found
    } else {
        found.skip(found.len() - 3)
    }
}

/// One resolution attempt for one locale: fails when no segment directory
/// exists at all, or when the file is found at no level of the walk.
pub open spec fn attempt(
    fs: FsSnapshot,
    root: Seq<char>,
    lang: Seq<char>,
    file: Seq<char>,
) -> Option<Seq<Seq<char>>> {
    let segs = split_on(lang, '-');
    if existing_depth(fs, root, segs) == 0 {
        None
    } else {
        let f = found_files(fs, root, segs, file);
        if f.len() == 0 {
            None
        } else {
            Some(chain_of(f))
        }
    }
}

/// The full resolution: the locale's own attempt, retried once with the
/// fallback locale when it fails; `None` is the fatal outcome.
pub open spec fn spec_resolve(
    fs: FsSnapshot,
    root: Seq<char>,
    lang: Seq<char>,
    fallback: Option<Seq<char>>,
    file: Seq<char>,
) -> Option<Seq<Seq<char>>> {
    match attempt(fs, root, lang, file) {
        Some(c) => Some(c),
        None => match fallback {
            Some(fb) => attempt(fs, root, fb, file),
            None => None,
        },
    }
}

/// A depth that satisfies the descent's stopping conditions is the existing
/// depth.
proof fn lemma_ed_unique(fs: FsSnapshot, root: Seq<char>, segs: Seq<Seq<char>>, d: int, e: int)
    requires
        0 <= d <= e <= segs.len(),
        forall|j: int| #![auto] d < j <= e ==> fs.is_dir(level_path(root, segs, j)),
        e < segs.len() ==> !fs.is_dir(level_path(root, segs, e + 1)),
    ensures
        ed_from(fs, root, segs, d) == e,
    decreases e - d,
{
    if d < e {
        assert(fs.is_dir(level_path(root, segs, d + 1)));
        lemma_ed_unique(fs, root, segs, d + 1, e);
    }
}

proof fn lemma_found_upto_exist(
    fs: FsSnapshot,
    root: Seq<char>,
    segs: Seq<Seq<char>>,
    file: Seq<char>,
    d: int,
)
    ensures
        forall|i: int|
            #![auto]
            0 <= i < found_upto(fs, root, segs, file, d).len() ==> fs.is_file(
                found_upto(fs, root, segs, file, d)[i],
            ),
    decreases d + 1,
{
    if d >= 0 {
        lemma_found_upto_exist(fs, root, segs, file, d - 1);
        let prev = found_upto(fs, root, segs, file, d - 1);
        let cur = found_upto(fs, root, segs, file, d);
        assert forall|i: int| #![auto] 0 <= i < cur.len() implies fs.is_file(cur[i]) by {
            if i < prev.len() {
                assert(cur[i] == prev[i]);
            } else {
                assert(cur[i] == join_path(level_path(root, segs, d), file));
            }
        }
    }
}

/// Every path of a resolved chain is a file of the snapshot.
pub proof fn lemma_resolved_files_exist(
    fs: FsSnapshot,
    root: Seq<char>,
    lang: Seq<char>,
    fallback: Option<Seq<char>>,
    file: Seq<char>,
)
    ensures
        spec_resolve(fs, root, lang, fallback, file) matches Some(c) ==> forall|i: int|
            #![auto]
            0 <= i < c.len() ==> fs.is_file(c[i]),
{
    let segs = split_on(lang, '-');
    lemma_found_upto_exist(fs, root, segs, file, walk_depth(fs, root, segs));
    match fallback {
        Some(fb) => {
            let fsegs = split_on(fb, '-');
            lemma_found_upto_exist(fs, root, fsegs, file, walk_depth(fs, root, fsegs));
        },
        None => {},
    }
}

proof fn lemma_found_full(
    fs: FsSnapshot,
    root: Seq<char>,
    segs: Seq<Seq<char>>,
    file: Seq<char>,
    d: int,
)
    requires
        forall|t: int| #![auto] 0 <= t <= d ==> fs.is_file(join_path(level_path(root, segs, t), file)),
    ensures
        found_upto(fs, root, segs, file, d).len() == if d < 0 {
            0int
        } else {
            d + 1
        },
        forall|t: int|
            #![auto]
            0 <= t <= d ==> found_upto(fs, root, segs, file, d)[t] == join_path(
                level_path(root, segs, t),
                file,
            ),
    decreases d + 1,
{
    if d >= 0 {
        lemma_found_full(fs, root, segs, file, d - 1);
    }
}

/// With every segment directory present and the file present at every level,
/// the resolved chain has one entry per level — the segment count plus one —
/// ordered general to specific.
pub proof fn lemma_chain_full_presence(
    fs: FsSnapshot,
    root: Seq<char>,
    lang: Seq<char>,
    file: Seq<char>,
)
    requires
        split_on(lang, '-').len() + 1 <= 3,
        forall|j: int|
            #![auto]
            1 <= j <= split_on(lang, '-').len() ==> fs.is_dir(
                level_path(root, split_on(lang, '-'), j),
            ),
        forall|d: int|
            #![auto]
            0 <= d <= split_on(lang, '-').len() ==> fs.is_file(
                join_path(level_path(root, split_on(lang, '-'), d), file),
            ),
    ensures
        attempt(fs, root, lang, file) matches Some(c) && {
            &&& c.len() == split_on(lang, '-').len() + 1
            &&& forall|d: int|
                #![auto]
                0 <= d < c.len() ==> c[d] == join_path(
                    level_path(root, split_on(lang, '-'), d),
                    file,
                )
        },
{
    let segs = split_on(lang, '-');
    crate::text::lemma_split_on_nonempty(lang, '-');
    lemma_ed_unique(fs, root, segs, 0, segs.len() as int);
    lemma_found_full(fs, root, segs, file, segs.len() as int);
}

/// With an existing directory for the first `e` segments only, and the file
/// present at exactly those levels, the resolved chain holds one entry for
/// each existing level and the missing deeper level raises no error.
pub proof fn lemma_chain_missing_segment(
    fs: FsSnapshot,
    root: Seq<char>,
    lang: Seq<char>,
    file: Seq<char>,
    e: int,
)
    requires
        1 <= e < split_on(lang, '-').len(),
        e + 1 <= 3,
        forall|j: int| #![auto] 1 <= j <= e ==> fs.is_dir(level_path(root, split_on(lang, '-'), j)),
        !fs.is_dir(level_path(root, split_on(lang, '-'), e + 1)),
        forall|d: int|
            #![auto]
            0 <= d <= e ==> fs.is_file(join_path(level_path(root, split_on(lang, '-'), d), file)),
        !fs.is_file(join_path(level_path(root, split_on(lang, '-'), e + 1), file)),
    ensures
        attempt(fs, root, lang, file) matches Some(c) && {
            &&& c.len() == e + 1
            &&& forall|d: int|
                #![auto]
                0 <= d <= e ==> c[d] == join_path(level_path(root, split_on(lang, '-'), d), file)
        },
{
    let segs = split_on(lang, '-');
    lemma_ed_unique(fs, root, segs, 0, e);
    lemma_found_full(fs, root, segs, file, e);
    assert(found_upto(fs, root, segs, file, e + 1) =~= found_upto(fs, root, segs, file, e));
}

/// For a wholly unknown language — no segment directory exists at all — the
/// resolution is exactly one retry with the fallback locale; when that also
/// fails, the outcome is fatal.
pub proof fn lemma_unknown_language_retries_fallback(
    fs: FsSnapshot,
    root: Seq<char>,
    lang: Seq<char>,
    fb: Seq<char>,
    file: Seq<char>,
)
    requires
        existing_depth(fs, root, split_on(lang, '-')) == 0,
    ensures
        spec_resolve(fs, root, lang, Some(fb), file) == attempt(fs, root, fb, file),
        attempt(fs, root, fb, file) is None ==> spec_resolve(fs, root, lang, Some(fb), file)
            is None,
{
}

fn attempt_resolve(fs: &FsSnapshot, root: &str, lang: &str, file_name: &str) -> (r: Option<
    Locations,
>)
    ensures
        r matches Some(loc) ==> attempt(*fs, root@, lang@, file_name@) == Some(loc@) && loc.wf(),
        r is None ==> attempt(*fs, root@, lang@, file_name@) is None,
{
    let segs = split_str(lang, '-');
    let ghost gs = segs.deep_view();
    let mut levels: Vec<String> = Vec::new();
    levels.push(root.to_owned());
    let mut e: usize = 0;
    let mut stopped = false;
    proof {
        assert(levels.deep_view() =~= seq![root@]);
        assert(level_path(root@, gs, 0) == root@);
    }
    while !stopped && e < segs.len()
        invariant
            0 <= e <= segs@.len(),
            gs == segs.deep_view(),
            gs.len() == segs@.len(),
            levels.deep_view().len() == e + 1,
            forall|d: int| #![auto] 0 <= d <= e ==> levels.deep_view()[d] == level_path(root@, gs, d),
            forall|j: int| #![auto] 0 < j <= e ==> fs.is_dir(level_path(root@, gs, j)),
            stopped ==> e < segs@.len() && !fs.is_dir(level_path(root@, gs, e + 1)),
        decreases segs@.len() - e + if stopped {
            0int
        } else {
            1int
        },
    {
        let next = join(levels[e].as_str(), segs[e].as_str());
        proof {
            assert(gs[e as int] == segs@[e as int]@);
            assert(levels.deep_view()[e as int] == levels@[e as int]@);
            assert(next@ == level_path(root@, gs, e + 1));
        }
        if fs.check_dir(next.as_str()) {
            let ghost old_levels = levels.deep_view();
            levels.push(next);
            e = e + 1;
            proof {
                assert(levels.deep_view() =~= old_levels.push(level_path(root@, gs, e as int)));
            }
        } else {
            stopped = true;
        }
    }
    proof {
        lemma_ed_unique(*fs, root@, gs, 0, e as int);
        assert(existing_depth(*fs, root@, gs) == e as int);
    }
    if e == 0 {
        return None;
    }
    let k: usize = if e == segs.len() {
        e
    } else {
        let next = join(levels[e].as_str(), segs[e].as_str());
        proof {
            assert(gs[e as int] == segs@[e as int]@);
            assert(levels.deep_view()[e as int] == levels@[e as int]@);
            assert(next@ == level_path(root@, gs, e + 1));
        }
        let ghost old_levels = levels.deep_view();
        levels.push(next);
        proof {
            assert(levels.deep_view() =~= old_levels.push(level_path(root@, gs, e + 1)));
        }
        e + 1
    };
    proof {
        assert(k as int == walk_depth(*fs, root@, gs));
        assert(levels.deep_view().len() == k + 1);
    }
    let mut found: Vec<String> = Vec::new();
    let mut d: usize = 0;
    let nlev = levels.len();
    proof {
        assert(nlev as int == k as int + 1);
        assert(found.deep_view() =~= found_upto(*fs, root@, gs, file_name@, -1));
    }
    while d < nlev
        invariant
            0 <= d <= nlev,
            nlev as int == k as int + 1,
            gs == segs.deep_view(),
            levels.deep_view().len() == k + 1,
            levels@.len() == k + 1,
            forall|t: int| #![auto] 0 <= t <= k ==> levels.deep_view()[t] == level_path(root@, gs, t),
            found.deep_view() == found_upto(*fs, root@, gs, file_name@, d - 1),
        decreases nlev - d,
    {
        let p = join(levels[d].as_str(), file_name);
        proof {
            assert(levels.deep_view()[d as int] == levels@[d as int]@);
            assert(p@ == join_path(level_path(root@, gs, d as int), file_name@));
        }
        if fs.check_file(p.as_str()) {
            let ghost old_found = found.deep_view();
            let ghost pv = p@;
            found.push(p);
            proof {
                assert(found.deep_view() =~= old_found.push(pv));
                assert(found.deep_view() =~= found_upto(*fs, root@, gs, file_name@, d as int));
            }
        } else {
            proof {
                assert(found.deep_view() =~= found_upto(*fs, root@, gs, file_name@, d as int));
            }
        }
        d = d + 1;
    }
    let ghost all_found = found_files(*fs, root@, gs, file_name@);
    proof {
        assert(found.deep_view() == all_found);
    }
    if found.len() == 0 {
        return None;
    }
    let start: usize = if found.len() > 3 {
        found.len() - 3
    } else {
        0
    };
    let mut chain: Vec<String> = Vec::new();
    let mut t: usize = start;
    proof {
        assert(chain.deep_view() =~= all_found.subrange(start as int, start as int));
    }
    while t < found.len()
        invariant
            start <= t <= found@.len(),
            found.deep_view() == all_found,
            found@.len() == all_found.len(),
            start as int == if all_found.len() <= 3 {
                0int
            } else {
                all_found.len() - 3
            },
            chain.deep_view() == all_found.subrange(start as int, t as int),
        decreases found@.len() - t,
    {
        let ghost old_chain = chain.deep_view();
        chain.push(found[t].clone());
        t = t + 1;
        proof {
            assert(chain.deep_view() =~= old_chain.push(all_found[t - 1]));
            assert(chain.deep_view() =~= all_found.subrange(start as int, t as int));
        }
    }
    proof {
        assert(chain.deep_view() =~= chain_of(all_found));
    }
    Some(Locations::from_vec(chain))
}

/// Resolves the fallback chain for one resource file, as [`spec_resolve`]
/// describes: the locale's own attempt, then one retry with the fallback
/// locale, then the fatal outcome.
pub fn resolve_chain(
    fs: &FsSnapshot,
    root: &str,
    lang: &str,
    fallback: Option<&str>,
    file_name: &str,
) -> (r: Result<Locations, FatalError>)
    ensures
        r matches Ok(loc) ==> spec_resolve(
            *fs,
            root@,
            lang@,
            match fallback {
                Some(fb) => Some(fb@),
                None => None,
            },
            file_name@,
        ) == Some(loc@) && loc.wf(),
        r is Err <==> spec_resolve(
            *fs,
            root@,
            lang@,
            match fallback {
                Some(fb) => Some(fb@),
                None => None,
            },
            file_name@,
        ) is None,
        r matches Err(err) ==> err == FatalError::UnresolvedLocale,
{
    match attempt_resolve(fs, root, lang, file_name) {
        Some(loc) => Ok(loc),
        None => match fallback {
            Some(fb) => match attempt_resolve(fs, root, fb, file_name) {
                Some(loc) => Ok(loc),
                None => Err(FatalError::UnresolvedLocale),
            },
            None => Err(FatalError::UnresolvedLocale),
        },
    }
}

} // verus!
