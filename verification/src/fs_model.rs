//! An explicit filesystem snapshot: the set of directories and files (with
//! modification times and, for preference files, contents) that the resolver
//! and the freshness check consult. Callers outside the library build a
//! snapshot from the real filesystem and hand it in, so every decision taken
//! from it is a pure function of the snapshot value.

use vstd::prelude::*;

verus! {

/// One file of the snapshot: its path, its last-modified instant and its text.
pub struct FsEntry {
    pub path: String,
    pub mtime: u64,
    pub content: String,
}

/// A snapshot of the directories and files the library may ask about.
pub struct FsSnapshot {
    dirs: Vec<String>,
    files: Vec<FsEntry>,
}

/// Whether the sequence records each file path at most once.
spec fn entries_wf(v: Seq<FsEntry>) -> bool {
    forall|i: int, j: int| 0 <= i < j < v.len() ==> v[i].path@ != v[j].path@
}

/// Whether some string of the sequence reads `p`.
spec fn str_in(v: Seq<String>, p: Seq<char>) -> bool {
    exists|i: int| 0 <= i < v.len() && v[i]@ == p
}

/// Whether some entry of the sequence has path `p`.
spec fn entry_in(v: Seq<FsEntry>, p: Seq<char>) -> bool {
    exists|i: int| 0 <= i < v.len() && v[i].path@ == p
}

/// The index of the entry with path `p`.
spec fn entry_idx(v: Seq<FsEntry>, p: Seq<char>) -> int {
    choose|i: int| 0 <= i < v.len() && v[i].path@ == p
}

proof fn lemma_str_in_push(v: Seq<String>, x: String, q: Seq<char>)
    ensures
        str_in(v.push(x), q) == (str_in(v, q) || x@ == q),
{
    if str_in(v, q) {
        let i = choose|i: int| 0 <= i < v.len() && v[i]@ == q;
        assert(v.push(x)[i]@ == q);
    }
    if x@ == q {
        assert(v.push(x)[v.len() as int]@ == q);
    }
    if str_in(v.push(x), q) && !(str_in(v, q) || x@ == q) {
        let i = choose|i: int| 0 <= i < v.push(x).len() && v.push(x)[i]@ == q;
        if i < v.len() {
            assert(v[i]@ == q);
        } else {
            assert(x@ == q);
        }
    }
}

proof fn lemma_entry_in_push(v: Seq<FsEntry>, x: FsEntry, q: Seq<char>)
    ensures
        entry_in(v.push(x), q) == (entry_in(v, q) || x.path@ == q),
{
    if entry_in(v, q) {
        let i = choose|i: int| 0 <= i < v.len() && v[i].path@ == q;
        assert(v.push(x)[i].path@ == q);
    }
    if x.path@ == q {
        assert(v.push(x)[v.len() as int].path@ == q);
    }
    if entry_in(v.push(x), q) && !(entry_in(v, q) || x.path@ == q) {
        let i = choose|i: int| 0 <= i < v.push(x).len() && v.push(x)[i].path@ == q;
        if i < v.len() {
            assert(v[i].path@ == q);
        } else {
            assert(x.path@ == q);
        }
    }
}

impl FsSnapshot {
    /// File paths are recorded at most once, so a file's time and text are
    /// well defined.
    pub closed spec fn wf(&self) -> bool {
        entries_wf(self.files@)
    }

    /// Whether a directory exists at this path.
    pub closed spec fn is_dir(&self, p: Seq<char>) -> bool {
        str_in(self.dirs@, p)
    }

    /// Whether a file exists at this path.
    pub closed spec fn is_file(&self, p: Seq<char>) -> bool {
        entry_in(self.files@, p)
    }

    /// The last-modified instant of the file at this path.
    pub closed spec fn mtime_of(&self, p: Seq<char>) -> u64 {
        self.files@[entry_idx(self.files@, p)].mtime
    }

    /// The text of the file at this path.
    pub closed spec fn content_of(&self, p: Seq<char>) -> Seq<char> {
        self.files@[entry_idx(self.files@, p)].content@
    }

    /// An empty snapshot: no directories, no files.
    pub fn new() -> (r: FsSnapshot)
        ensures
            r.wf(),
            forall|p: Seq<char>| !r.is_dir(p),
            forall|p: Seq<char>| !r.is_file(p),
    {
        FsSnapshot { dirs: Vec::new(), files: Vec::new() }
    }

    /// Records a directory at `p`.
    pub fn add_dir(&mut self, p: &str)
        ensures
            final(self).wf() == old(self).wf(),
            forall|q: Seq<char>| final(self).is_dir(q) == (old(self).is_dir(q) || q == p@),
            forall|q: Seq<char>| final(self).is_file(q) == old(self).is_file(q),
            forall|q: Seq<char>| final(self).mtime_of(q) == old(self).mtime_of(q),
            forall|q: Seq<char>| final(self).content_of(q) == old(self).content_of(q),
    {
        let ghost old_dirs = self.dirs@;
        let owned = p.to_owned();
        let ghost x = owned;
        self.dirs.push(owned);
        proof {
            assert(self.dirs@ == old_dirs.push(x));
            assert forall|q: Seq<char>|
                self.is_dir(q) == (old(self).is_dir(q) || q == p@) by {
                lemma_str_in_push(old_dirs, x, q);
            }
        }
    }

    /// Records a file at `p` with its modification time and text. The path
    /// must be new, so that the snapshot stays well formed.
    pub fn add_file(&mut self, p: &str, mtime: u64, content: &str)
        requires
            old(self).wf(),
            !old(self).is_file(p@),
        ensures
            final(self).wf(),
            forall|q: Seq<char>| final(self).is_dir(q) == old(self).is_dir(q),
            forall|q: Seq<char>| final(self).is_file(q) == (old(self).is_file(q) || q == p@),
            final(self).mtime_of(p@) == mtime,
            final(self).content_of(p@) == content@,
            forall|q: Seq<char>|
                old(self).is_file(q) ==> final(self).mtime_of(q) == old(self).mtime_of(q)
                    && final(self).content_of(q) == old(self).content_of(q),
    {
        let ghost old_files = self.files@;
        let entry = FsEntry { path: p.to_owned(), mtime, content: content.to_owned() };
        let ghost x = entry;
        self.files.push(entry);
        proof {
            assert(self.files@ == old_files.push(x));
            assert forall|q: Seq<char>|
                self.is_file(q) == (old(self).is_file(q) || q == p@) by {
                lemma_entry_in_push(old_files, x, q);
            }
            assert forall|i: int, j: int|
                0 <= i < j < self.files@.len() implies self.files@[i].path@
                != self.files@[j].path@ by {
                if j == self.files@.len() - 1 {
                    assert(self.files@[i] == old_files[i]);
                    if self.files@[i].path@ == p@ {
                        assert(entry_in(old_files, p@));
                    }
                }
            }
            assert(entries_wf(self.files@));
            let last = self.files@.len() - 1;
            assert(self.files@[last].path@ == p@);
            let k = entry_idx(self.files@, p@);
            assert(0 <= k < self.files@.len() && self.files@[k].path@ == p@);
            if k != last {
                assert(self.files@[k].path@ != self.files@[last].path@);
            }
            assert forall|q: Seq<char>| old(self).is_file(q) implies self.mtime_of(q) == old(
                self,
            ).mtime_of(q) && self.content_of(q) == old(self).content_of(q) by {
                let i = entry_idx(old_files, q);
                assert(0 <= i < old_files.len() && old_files[i].path@ == q);
                assert(self.files@[i].path@ == q);
                let j = entry_idx(self.files@, q);
                assert(0 <= j < self.files@.len() && self.files@[j].path@ == q);
                if i != j {
                    if j == last {
                        assert(q == p@);
                    } else {
                        assert(self.files@[i].path@ != self.files@[j].path@);
                    }
                }
            }
        }
    }

    /// Whether a directory exists at `p`.
    pub fn check_dir(&self, p: &str) -> (r: bool)
        ensures
            r == self.is_dir(p@),
    {
        let key = p.to_owned();
        let n = self.dirs.len();
        let mut i: usize = 0;
        while i < n
            invariant
                0 <= i <= n,
                n == self.dirs@.len(),
                key@ == p@,
                forall|j: int| 0 <= j < i ==> self.dirs@[j]@ != p@,
            decreases n - i,
        {
            if self.dirs[i] == key {
                return true;
            }
            i = i + 1;
        }
        false
    }

    fn find_file(&self, p: &str) -> (r: Option<usize>)
        ensures
            r matches Some(i) ==> i < self.files@.len() && self.files@[i as int].path@ == p@,
            r is None ==> !self.is_file(p@),
    {
        let key = p.to_owned();
        let n = self.files.len();
        let mut i: usize = 0;
        while i < n
            invariant
                0 <= i <= n,
                n == self.files@.len(),
                key@ == p@,
                forall|j: int| 0 <= j < i ==> self.files@[j].path@ != p@,
            decreases n - i,
        {
            if self.files[i].path == key {
                return Some(i);
            }
            i = i + 1;
        }
        None
    }

    /// Whether a file exists at `p`.
    pub fn check_file(&self, p: &str) -> (r: bool)
        ensures
            r == self.is_file(p@),
    {
        match self.find_file(p) {
            Some(i) => {
                proof {
                    assert(self.files@[i as int].path@ == p@);
                }
                true
            },
            None => false,
        }
    }

    /// The modification time of the file at `p`, if one exists.
    pub fn mtime(&self, p: &str) -> (r: Option<u64>)
        requires
            self.wf(),
        ensures
            r matches Some(t) ==> self.is_file(p@) && t == self.mtime_of(p@),
            r is None ==> !self.is_file(p@),
    {
        match self.find_file(p) {
            Some(i) => {
                proof {
                    assert(self.files@[i as int].path@ == p@);
                    let j = entry_idx(self.files@, p@);
                    assert(0 <= j < self.files@.len() && self.files@[j].path@ == p@);
                    if i != j {
                        assert(self.files@[i as int].path@ != self.files@[j].path@);
                    }
                }
                Some(self.files[i].mtime)
            },
            None => None,
        }
    }

    /// The text of the file at `p`, if one exists.
    pub fn content(&self, p: &str) -> (r: Option<&String>)
        requires
            self.wf(),
        ensures
            r matches Some(c) ==> self.is_file(p@) && c@ == self.content_of(p@),
            r is None ==> !self.is_file(p@),
    {
        match self.find_file(p) {
            Some(i) => {
                proof {
                    assert(self.files@[i as int].path@ == p@);
                    let j = entry_idx(self.files@, p@);
                    assert(0 <= j < self.files@.len() && self.files@[j].path@ == p@);
                    if i != j {
                        assert(self.files@[i as int].path@ != self.files@[j].path@);
                    }
                }
                Some(&self.files[i].content)
            },
            None => None,
        }
    }
}

} // verus!
