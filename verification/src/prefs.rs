//! Preference values and preference sets. A set maps preference names to
//! tagged scalar values; its mathematical value is a `Map` from name to
//! [`Pref`]. Real numbers keep their textual form throughout, as the
//! preference documents carry them.

use vstd::prelude::*;
use vstd::map::*;
use crate::text::int_str;

verus! {

/// A preference value, at the specification level.
pub enum Pref {
    Text(Seq<char>),
    Bool(bool),
    Int(int),
    Real(Seq<char>),
}

/// A preference value: text, boolean, integer, or a real kept in its textual
/// form.
pub enum PrefValue {
    Text(String),
    Bool(bool),
    Int(i64),
    Real(String),
}

impl View for PrefValue {
    type V = Pref;

    open spec fn view(&self) -> Pref {
        match self {
            PrefValue::Text(s) => Pref::Text(s@),
            PrefValue::Bool(b) => Pref::Bool(*b),
            PrefValue::Int(i) => Pref::Int(*i as int),
            PrefValue::Real(s) => Pref::Real(s@),
        }
    }
}

/// Copies a preference value; the copy has the same mathematical value.
pub fn clone_value(v: &PrefValue) -> (r: PrefValue)
    ensures
        r@ == v@,
{
    match v {
        PrefValue::Text(s) => PrefValue::Text(s.clone()),
        PrefValue::Bool(b) => PrefValue::Bool(*b),
        PrefValue::Int(i) => PrefValue::Int(*i),
        PrefValue::Real(s) => PrefValue::Real(s.clone()),
    }
}

/// The textual rendering of a preference value: text and reals read as they
/// are, booleans as `true`/`false`, integers in decimal.
pub open spec fn pref_str(p: Pref) -> Seq<char> {
    match p {
        Pref::Text(s) => s,
        Pref::Bool(b) => if b {
            "true"@
        } else {
            "false"@
        },
        Pref::Int(i) => int_str(i),
        Pref::Real(s) => s,
    }
}

/// The textual rendering of the preference named `k`, empty when absent.
pub open spec fn pref_string(m: Map<Seq<char>, Pref>, k: Seq<char>) -> Seq<char> {
    if m.dom().contains(k) {
        pref_str(m[k])
    } else {
        Seq::empty()
    }
}

/// Whether the entry sequence records each name at most once.
spec fn keys_distinct(v: Seq<(String, PrefValue)>) -> bool {
    forall|i: int, j: int| 0 <= i < j < v.len() ==> v[i].0@ != v[j].0@
}

/// Whether some entry is named `k`.
spec fn has_key(v: Seq<(String, PrefValue)>, k: Seq<char>) -> bool {
    exists|i: int| 0 <= i < v.len() && v[i].0@ == k
}

/// The index of the entry named `k`.
spec fn idx_of(v: Seq<(String, PrefValue)>, k: Seq<char>) -> int {
    choose|i: int| 0 <= i < v.len() && v[i].0@ == k
}

/// The map the entry sequence denotes.
spec fn map_of(v: Seq<(String, PrefValue)>) -> Map<Seq<char>, Pref> {
    Map::new(|k: Seq<char>| has_key(v, k), |k: Seq<char>| v[idx_of(v, k)].1@)
}

/// With distinct keys, two entries with the same name are the same entry.
proof fn lemma_unique_idx(v: Seq<(String, PrefValue)>, a: int, b: int)
    requires
        keys_distinct(v),
        0 <= a < v.len(),
        0 <= b < v.len(),
        v[a].0@ == v[b].0@,
    ensures
        a == b,
{
    if a < b {
        assert(v[a].0@ != v[b].0@);
    }
    if b < a {
        assert(v[b].0@ != v[a].0@);
    }
}

/// A preference set: a mapping from preference name to value.
pub struct Preferences {
    entries: Vec<(String, PrefValue)>,
}

impl View for Preferences {
    type V = Map<Seq<char>, Pref>;

    closed spec fn view(&self) -> Map<Seq<char>, Pref> {
        map_of(self.entries@)
    }
}

impl Preferences {
    /// Each name occurs at most once, so lookups are well defined.
    pub closed spec fn wf(&self) -> bool {
        keys_distinct(self.entries@)
    }

    /// An empty preference set.
    pub fn empty() -> (r: Preferences)
        ensures
            r.wf(),
            r@ == Map::<Seq<char>, Pref>::empty(),
    {
        let r = Preferences { entries: Vec::new() };
        proof {
            assert(r@ =~= Map::<Seq<char>, Pref>::empty());
        }
        r
    }

    /// Inserts or overwrites the preference named `name`.
    pub fn insert(&mut self, name: &str, value: PrefValue)
        requires
            old(self).wf(),
        ensures
            final(self).wf(),
            final(self)@ == old(self)@.insert(name@, value@),
    {
        let n = self.entries.len();
        let mut i: usize = 0;
        while i < n
            invariant
                0 <= i <= n,
                n == self.entries@.len(),
                self == old(self),
                self.wf(),
                forall|j: int| 0 <= j < i ==> self.entries@[j].0@ != name@,
            decreases n - i,
        {
            if crate::text::str_eq(self.entries[i].0.as_str(), name) {
                let ghost old_entries = self.entries@;
                let ghost vi = value@;
                self.entries[i] = (name.to_owned(), value);
                proof {
                    let new_entries = self.entries@;
                    assert(new_entries == old_entries.update(i as int, new_entries[i as int]));
                    assert(new_entries[i as int].0@ == name@);
                    assert(old_entries[i as int].0@ == name@);
                    assert forall|a: int, b: int|
                        0 <= a < b < new_entries.len() implies new_entries[a].0@
                        != new_entries[b].0@ by {
                        assert(old_entries[a].0@ != old_entries[b].0@);
                    }
                    assert(map_of(new_entries) =~= map_of(old_entries).insert(name@, vi)) by {
                        assert forall|k: Seq<char>|
                            #![auto]
                            has_key(new_entries, k) == (has_key(old_entries, k) || k == name@) by {
                            if has_key(old_entries, k) {
                                let a = idx_of(old_entries, k);
                                if a == i as int {
                                    assert(new_entries[a].0@ == name@ && k == name@);
                                } else {
                                    assert(new_entries[a].0@ == k);
                                }
                            }
                            if k == name@ {
                                assert(new_entries[i as int].0@ == k);
                            }
                            if has_key(new_entries, k) {
                                let a = idx_of(new_entries, k);
                                if a == i as int {
                                    assert(k == name@);
                                } else {
                                    assert(old_entries[a].0@ == k);
                                }
                            }
                        }
                        assert forall|k: Seq<char>|
                            #![auto]
                            has_key(new_entries, k) implies map_of(new_entries)[k] == map_of(
                            old_entries,
                        ).insert(name@, vi)[k] by {
                            let a = idx_of(new_entries, k);
                            assert(0 <= a < new_entries.len() && new_entries[a].0@ == k);
                            if k == name@ {
                                lemma_unique_idx(new_entries, a, i as int);
                                assert(map_of(new_entries)[k] == vi);
                            } else {
                                assert(a != i as int);
                                assert(old_entries[a].0@ == k);
                                let b = idx_of(old_entries, k);
                                assert(0 <= b < old_entries.len() && old_entries[b].0@ == k);
                                lemma_unique_idx(old_entries, a, b);
                                assert(map_of(new_entries)[k] == map_of(old_entries)[k]);
                            }
                        }
                    }
                }
                return ;
            }
            i = i + 1;
        }
        let ghost old_entries = self.entries@;
        let ghost vi = value@;
        self.entries.push((name.to_owned(), value));
        proof {
            let new_entries = self.entries@;
            let last = new_entries.len() - 1;
            assert(new_entries[last].0@ == name@);
            assert(!has_key(old_entries, name@));
            assert forall|a: int, b: int|
                0 <= a < b < new_entries.len() implies new_entries[a].0@ != new_entries[b].0@ by {
                if b == last {
                    assert(new_entries[a] == old_entries[a]);
                    if new_entries[a].0@ == name@ {
                        assert(has_key(old_entries, name@));
                    }
                } else {
                    assert(old_entries[a].0@ != old_entries[b].0@);
                }
            }
            assert(map_of(new_entries) =~= map_of(old_entries).insert(name@, vi)) by {
                assert forall|k: Seq<char>|
                    #![auto]
                    has_key(new_entries, k) == (has_key(old_entries, k) || k == name@) by {
                    if has_key(old_entries, k) {
                        let a = idx_of(old_entries, k);
                        assert(new_entries[a].0@ == k);
                    }
                    if has_key(new_entries, k) {
                        let a = idx_of(new_entries, k);
                        if a == last {
                            assert(k == name@);
                        } else {
                            assert(old_entries[a].0@ == k);
                        }
                    }
                }
                assert forall|k: Seq<char>|
                    #![auto]
                    has_key(new_entries, k) implies map_of(new_entries)[k] == map_of(
                    old_entries,
                ).insert(name@, vi)[k] by {
                    let a = idx_of(new_entries, k);
                    assert(0 <= a < new_entries.len() && new_entries[a].0@ == k);
                    if k == name@ {
                        lemma_unique_idx(new_entries, a, last);
                        assert(map_of(new_entries)[k] == vi);
                    } else {
                        assert(a != last);
                        assert(old_entries[a].0@ == k);
                        let b = idx_of(old_entries, k);
                        assert(0 <= b < old_entries.len() && old_entries[b].0@ == k);
                        lemma_unique_idx(old_entries, a, b);
                        assert(map_of(new_entries)[k] == map_of(old_entries)[k]);
                    }
                }
            }
        }
    }

    /// The value of the preference named `name`, if one is set.
    pub fn get(&self, name: &str) -> (r: Option<&PrefValue>)
        requires
            self.wf(),
        ensures
            r matches Some(v) ==> self@.dom().contains(name@) && v@ == self@[name@],
            r is None ==> !self@.dom().contains(name@),
    {
        let n = self.entries.len();
        let mut i: usize = 0;
        while i < n
            invariant
                0 <= i <= n,
                n == self.entries@.len(),
                self.wf(),
                forall|j: int| 0 <= j < i ==> self.entries@[j].0@ != name@,
            decreases n - i,
        {
            if crate::text::str_eq(self.entries[i].0.as_str(), name) {
                proof {
                    assert(self.entries@[i as int].0@ == name@);
                    let b = idx_of(self.entries@, name@);
                    assert(0 <= b < self.entries@.len() && self.entries@[b].0@ == name@);
                    lemma_unique_idx(self.entries@, b, i as int);
                }
                return Some(&self.entries[i].1);
            }
            i = i + 1;
        }
        None
    }

    /// The textual rendering of the preference named `name`, or the empty
    /// string when it is not set.
    pub fn to_string(&self, name: &str) -> (r: String)
        requires
            self.wf(),
        ensures
            r@ == pref_string(self@, name@),
    {
        match self.get(name) {
            None => String::new(),
            Some(v) => match v {
                PrefValue::Text(s) => s.clone(),
                PrefValue::Bool(b) => if *b {
                    "true".to_owned()
                } else {
                    "false".to_owned()
                },
                PrefValue::Int(i) => crate::text::i64_to_string(*i),
                PrefValue::Real(s) => s.clone(),
            },
        }
    }

    /// A copy of the set, with the same mathematical value.
    pub fn duplicate(&self) -> (r: Preferences)
        requires
            self.wf(),
        ensures
            r.wf(),
            r@ == self@,
    {
        let mut out = Preferences::empty();
        let n = self.entries.len();
        let mut i: usize = 0;
        while i < n
            invariant
                0 <= i <= n,
                n == self.entries@.len(),
                self.wf(),
                out.wf(),
                out@ == map_of(self.entries@.take(i as int)),
            decreases n - i,
        {
            proof {
                lemma_map_of_take_step(self.entries@, i as int);
            }
            let name = self.entries[i].0.clone();
            let value = clone_value(&self.entries[i].1);
            out.insert(name.as_str(), value);
            i = i + 1;
        }
        proof {
            assert(self.entries@.take(n as int) =~= self.entries@);
        }
        out
    }
}

/// The compiled-in defaults of the user preference set.
pub open spec fn user_defaults_spec() -> Map<Seq<char>, Pref> {
    Map::<Seq<char>, Pref>::empty().insert("Language"@, Pref::Text("en"@)).insert(
        "SpeechStyle"@,
        Pref::Text("ClearSpeak"@),
    ).insert("Verbosity"@, Pref::Text("medium"@)).insert("Blind"@, Pref::Bool(true)).insert(
        "NavigationMode"@,
        Pref::Text("enhanced"@),
    ).insert("NavigationSpeech"@, Pref::Text("read"@))
}

/// The compiled-in defaults of the API preference set.
pub open spec fn api_defaults_spec() -> Map<Seq<char>, Pref> {
    Map::<Seq<char>, Pref>::empty().insert("TTS"@, Pref::Text("none"@)).insert(
        "Pitch"@,
        Pref::Real("1.0"@),
    ).insert("Rate"@, Pref::Real("180.0"@)).insert("Volume"@, Pref::Real("100.0"@)).insert(
        "Voice"@,
        Pref::Text("none"@),
    ).insert("Gender"@, Pref::Text("none"@))
}

/// The default user preferences, used when no file sets a value.
pub fn user_defaults() -> (r: Preferences)
    ensures
        r.wf(),
        r@ == user_defaults_spec(),
{
    let mut r = Preferences::empty();
    r.insert("Language", PrefValue::Text("en".to_owned()));
    r.insert("SpeechStyle", PrefValue::Text("ClearSpeak".to_owned()));
    r.insert("Verbosity", PrefValue::Text("medium".to_owned()));
    r.insert("Blind", PrefValue::Bool(true));
    r.insert("NavigationMode", PrefValue::Text("enhanced".to_owned()));
    r.insert("NavigationSpeech", PrefValue::Text("read".to_owned()));
    r
}

/// The default API preferences, set by the host and never file-sourced.
pub fn api_defaults() -> (r: Preferences)
    ensures
        r.wf(),
        r@ == api_defaults_spec(),
{
    let mut r = Preferences::empty();
    r.insert("TTS", PrefValue::Text("none".to_owned()));
    r.insert("Pitch", PrefValue::Real("1.0".to_owned()));
    r.insert("Rate", PrefValue::Real("180.0".to_owned()));
    r.insert("Volume", PrefValue::Real("100.0".to_owned()));
    r.insert("Voice", PrefValue::Text("none".to_owned()));
    r.insert("Gender", PrefValue::Text("none".to_owned()));
    r
}

/// Inserting on the right of a union is inserting into the union.
proof fn lemma_union_insert_right(
    m: Map<Seq<char>, Pref>,
    p: Map<Seq<char>, Pref>,
    k: Seq<char>,
    v: Pref,
)
    ensures
        m.union_prefer_right(p.insert(k, v)) == m.union_prefer_right(p).insert(k, v),
{
    assert(m.union_prefer_right(p.insert(k, v)) =~= m.union_prefer_right(p).insert(k, v));
}

impl Preferences {
    /// This set overlaid by `other`: `other` wins where both set a name.
    pub fn overlay(&self, other: &Preferences) -> (r: Preferences)
        requires
            self.wf(),
            other.wf(),
        ensures
            r.wf(),
            r@ == self@.union_prefer_right(other@),
    {
        let mut out = self.duplicate();
        let n = other.entries.len();
        let mut i: usize = 0;
        proof {
            assert(map_of(other.entries@.take(0)) =~= Map::<Seq<char>, Pref>::empty());
            assert(self@.union_prefer_right(Map::<Seq<char>, Pref>::empty()) =~= self@);
        }
        while i < n
            invariant
                0 <= i <= n,
                n == other.entries@.len(),
                self.wf(),
                other.wf(),
                out.wf(),
                out@ == self@.union_prefer_right(map_of(other.entries@.take(i as int))),
            decreases n - i,
        {
            proof {
                lemma_map_of_take_step(other.entries@, i as int);
                lemma_union_insert_right(
                    self@,
                    map_of(other.entries@.take(i as int)),
                    other.entries@[i as int].0@,
                    other.entries@[i as int].1@,
                );
            }
            let name = other.entries[i].0.clone();
            let value = clone_value(&other.entries[i].1);
            out.insert(name.as_str(), value);
            i = i + 1;
        }
        proof {
            assert(other.entries@.take(n as int) =~= other.entries@);
        }
        out
    }
}

/// Taking one more entry inserts that entry's pair into the denoted map.
proof fn lemma_map_of_take_step(v: Seq<(String, PrefValue)>, i: int)
    requires
        keys_distinct(v),
        0 <= i < v.len(),
    ensures
        map_of(v.take(i + 1)) == map_of(v.take(i)).insert(v[i].0@, v[i].1@),
{
    let a = v.take(i);
    let b = v.take(i + 1);
    assert(b == a.push(v[i]));
    assert forall|k: Seq<char>| #![auto] has_key(b, k) == (has_key(a, k) || k == v[i].0@) by {
        if has_key(a, k) {
            let x = idx_of(a, k);
            assert(b[x].0@ == k);
        }
        if k == v[i].0@ {
            assert(b[i].0@ == k);
        }
        if has_key(b, k) {
            let x = idx_of(b, k);
            if x == i {
                assert(k == v[i].0@);
            } else {
                assert(a[x].0@ == k);
            }
        }
    }
    assert(map_of(b) =~= map_of(a).insert(v[i].0@, v[i].1@)) by {
        assert forall|k: Seq<char>| #![auto] has_key(b, k) implies map_of(b)[k] == map_of(a).insert(
            v[i].0@,
            v[i].1@,
        )[k] by {
            let x = idx_of(b, k);
            assert(0 <= x < b.len() && b[x].0@ == k);
            assert(b[x] == v[x]);
            if k == v[i].0@ {
                lemma_unique_idx(v, x, i);
                assert(map_of(b)[k] == v[i].1@);
            } else {
                assert(x != i);
                assert(a[x].0@ == k);
                let y = idx_of(a, k);
                assert(0 <= y < a.len() && a[y].0@ == k);
                assert(a[y] == v[y]);
                lemma_unique_idx(v, x, y);
                assert(map_of(b)[k] == map_of(a)[k]);
            }
        }
    }
}

} // verus!
