//! The preference-document loader: turns parsed documents into flat
//! preference sets. Within each recognized namespace (`Speech`, `Navigation`,
//! `Braille`) scalar entries are stored under their trimmed bare key, nested
//! mappings are flattened with `<key>_` prefixes, and sequence values or
//! non-text keys are skipped. Later documents overwrite earlier values key by
//! key.

use vstd::prelude::*;
use crate::doc::{Doc, DocValue, doc_of, doc_of_pairs, parse_yaml, parsed_yaml, docs_view};
use crate::doc::{lemma_doc_of_pairs_index, lemma_doc_of_pairs_len, lemma_doc_of_list_index};
use crate::prefs::{Pref, PrefValue, Preferences};
use crate::text::trim_spec;

verus! {

/// The value stored under the first entry whose key is the text `k`.
pub open spec fn lookup_key(entries: Seq<(Doc, Doc)>, k: Seq<char>) -> Option<Doc>
    decreases entries.len(),
{
    if entries.len() == 0 {
        None
    } else if entries[0].0 == Doc::Text(k) {
        Some(entries[0].1)
    } else {
        lookup_key(entries.drop_first(), k)
    }
}

/// One mapping entry applied to the preference set: a scalar under a text key
/// is stored under the prefixed, trimmed key; a nested mapping is flattened
/// with the key and an underscore appended to the prefix; anything else is
/// skipped.
pub open spec fn apply_entry(
    m: Map<Seq<char>, Pref>,
    key: Doc,
    value: Doc,
    prefix: Seq<char>,
) -> Map<Seq<char>, Pref>
    decreases value,
{
    match key {
        Doc::Text(name) => match value {
            Doc::Mapping(sub) => apply_entries(m, sub, prefix + name + "_"@),
            Doc::List(items) => m,
            Doc::Other => m,
            Doc::Text(s) => m.insert(prefix + trim_spec(name), Pref::Text(trim_spec(s))),
            Doc::Bool(b) => m.insert(prefix + trim_spec(name), Pref::Bool(b)),
            Doc::Int(i) => m.insert(prefix + trim_spec(name), Pref::Int(i)),
            Doc::Real(s) => m.insert(prefix + trim_spec(name), Pref::Real(s)),
        },
        _ => m,
    }
}

/// Mapping entries applied in order; a later entry overwrites an earlier one
/// that flattens to the same key.
pub open spec fn apply_entries(
    m: Map<Seq<char>, Pref>,
    entries: Seq<(Doc, Doc)>,
    prefix: Seq<char>,
) -> Map<Seq<char>, Pref>
    decreases entries,
{
    if entries.len() == 0 {
        m
    } else {
        apply_entries(apply_entry(m, entries[0].0, entries[0].1, prefix), entries.drop_first(), prefix)
    }
}

/// One namespace of a document applied to the preference set: nothing unless
/// the document is a mapping whose entry `key` is itself a mapping.
pub open spec fn apply_ns(m: Map<Seq<char>, Pref>, doc: Doc, key: Seq<char>) -> Map<
    Seq<char>,
    Pref,
> {
    match doc {
        Doc::Mapping(entries) => match lookup_key(entries, key) {
            Some(Doc::Mapping(sub)) => apply_entries(m, sub, Seq::empty()),
            _ => m,
        },
        _ => m,
    }
}

/// A whole document applied to the preference set: its three recognized
/// namespaces in order.
pub open spec fn apply_doc(m: Map<Seq<char>, Pref>, doc: Doc) -> Map<Seq<char>, Pref> {
    apply_ns(apply_ns(apply_ns(m, doc, "Speech"@), doc, "Navigation"@), doc, "Braille"@)
}

/// One document text applied to the preference set: nothing unless the text
/// parses to exactly one document.
pub open spec fn apply_content(m: Map<Seq<char>, Pref>, text: Seq<char>) -> Map<Seq<char>, Pref> {
    match parsed_yaml(text) {
        Some(docs) => if docs.len() == 1 {
            apply_doc(m, docs[0])
        } else {
            m
        },
        None => m,
    }
}

/// The preference names one mapping entry writes.
pub open spec fn entry_keys(key: Doc, value: Doc, prefix: Seq<char>) -> Set<Seq<char>>
    decreases value,
{
    match key {
        Doc::Text(name) => match value {
            Doc::Mapping(sub) => entries_keys(sub, prefix + name + "_"@),
            Doc::List(items) => Set::empty(),
            Doc::Other => Set::empty(),
            _ => Set::empty().insert(prefix + trim_spec(name)),
        },
        _ => Set::empty(),
    }
}

/// The preference names a sequence of mapping entries writes.
pub open spec fn entries_keys(entries: Seq<(Doc, Doc)>, prefix: Seq<char>) -> Set<Seq<char>>
    decreases entries,
{
    if entries.len() == 0 {
        Set::empty()
    } else {
        entry_keys(entries[0].0, entries[0].1, prefix).union(
            entries_keys(entries.drop_first(), prefix),
        )
    }
}

/// The preference names one namespace of a document writes.
pub open spec fn ns_keys(doc: Doc, key: Seq<char>) -> Set<Seq<char>> {
    match doc {
        Doc::Mapping(entries) => match lookup_key(entries, key) {
            Some(Doc::Mapping(sub)) => entries_keys(sub, Seq::empty()),
            _ => Set::empty(),
        },
        _ => Set::empty(),
    }
}

/// The preference names a whole document writes.
pub open spec fn doc_keys(doc: Doc) -> Set<Seq<char>> {
    ns_keys(doc, "Speech"@).union(ns_keys(doc, "Navigation"@)).union(ns_keys(doc, "Braille"@))
}

/// The preference names one document text writes.
pub open spec fn content_keys(text: Seq<char>) -> Set<Seq<char>> {
    match parsed_yaml(text) {
        Some(docs) => if docs.len() == 1 {
            doc_keys(docs[0])
        } else {
            Set::empty()
        },
        None => Set::empty(),
    }
}

proof fn lemma_untouched_entry(
    m: Map<Seq<char>, Pref>,
    key: Doc,
    value: Doc,
    prefix: Seq<char>,
    k: Seq<char>,
)
    requires
        !entry_keys(key, value, prefix).contains(k),
    ensures
        apply_entry(m, key, value, prefix).contains_key(k) == m.contains_key(k),
        m.contains_key(k) ==> apply_entry(m, key, value, prefix)[k] == m[k],
    decreases value,
{
    match key {
        Doc::Text(name) => match value {
            Doc::Mapping(sub) => {
                lemma_untouched_entries(m, sub, prefix + name + "_"@, k);
            },
            _ => {},
        },
        _ => {},
    }
}

proof fn lemma_untouched_entries(
    m: Map<Seq<char>, Pref>,
    entries: Seq<(Doc, Doc)>,
    prefix: Seq<char>,
    k: Seq<char>,
)
    requires
        !entries_keys(entries, prefix).contains(k),
    ensures
        apply_entries(m, entries, prefix).contains_key(k) == m.contains_key(k),
        m.contains_key(k) ==> apply_entries(m, entries, prefix)[k] == m[k],
    decreases entries,
{
    if entries.len() > 0 {
        lemma_untouched_entry(m, entries[0].0, entries[0].1, prefix, k);
        lemma_untouched_entries(
            apply_entry(m, entries[0].0, entries[0].1, prefix),
            entries.drop_first(),
            prefix,
            k,
        );
    }
}

/// A preference name that a later document does not write keeps the value
/// the earlier state gave it: keys unique to earlier files survive the later
/// file's application.
pub proof fn lemma_untouched_keys_survive(m: Map<Seq<char>, Pref>, text: Seq<char>, k: Seq<char>)
    requires
        !content_keys(text).contains(k),
    ensures
        apply_content(m, text).contains_key(k) == m.contains_key(k),
        m.contains_key(k) ==> apply_content(m, text)[k] == m[k],
{
    match parsed_yaml(text) {
        Some(docs) => {
            if docs.len() == 1 {
                let d = docs[0];
                let m1 = apply_ns(m, d, "Speech"@);
                let m2 = apply_ns(m1, d, "Navigation"@);
                lemma_untouched_ns(m, d, "Speech"@, k);
                lemma_untouched_ns(m1, d, "Navigation"@, k);
                lemma_untouched_ns(m2, d, "Braille"@, k);
            }
        },
        None => {},
    }
}

proof fn lemma_untouched_ns(m: Map<Seq<char>, Pref>, doc: Doc, key: Seq<char>, k: Seq<char>)
    requires
        !ns_keys(doc, key).contains(k),
    ensures
        apply_ns(m, doc, key).contains_key(k) == m.contains_key(k),
        m.contains_key(k) ==> apply_ns(m, doc, key)[k] == m[k],
{
    match doc {
        Doc::Mapping(entries) => match lookup_key(entries, key) {
            Some(sub) => match sub {
                Doc::Mapping(inner) => {
                    lemma_untouched_entries(m, inner, Seq::empty(), k);
                },
                _ => {},
            },
            _ => {},
        },
        _ => {},
    }
}

/// A scalar text entry overwrites whatever an earlier file or the defaults
/// stored under its flattened key: applying it is exactly a map insert, so
/// the last writer wins.
pub proof fn lemma_scalar_entry_overrides(
    m: Map<Seq<char>, Pref>,
    name: Seq<char>,
    x: Seq<char>,
    prefix: Seq<char>,
)
    ensures
        apply_entries(m, seq![(Doc::Text(name), Doc::Text(x))], prefix) == m.insert(
            prefix + trim_spec(name),
            Pref::Text(trim_spec(x)),
        ),
{
    let entries = seq![(Doc::Text(name), Doc::Text(x))];
    assert(entries.drop_first() =~= Seq::<(Doc, Doc)>::empty());
    assert(entries[0] == (Doc::Text(name), Doc::Text(x)));
    let m1 = apply_entry(m, entries[0].0, entries[0].1, prefix);
    assert(apply_entries(m, entries, prefix) == apply_entries(m1, entries.drop_first(), prefix));
    assert(apply_entries(m1, Seq::<(Doc, Doc)>::empty(), prefix) == m1);
}

/// A nested mapping `{a: {b: x}}` inside a namespace flattens to the single
/// key `a_b` (the outer name, an underscore, the trimmed inner name) holding
/// the trimmed text `x`.
pub proof fn lemma_nested_mapping_flattens(
    m: Map<Seq<char>, Pref>,
    a: Seq<char>,
    b: Seq<char>,
    x: Seq<char>,
    prefix: Seq<char>,
)
    ensures
        apply_entries(
            m,
            seq![(Doc::Text(a), Doc::Mapping(seq![(Doc::Text(b), Doc::Text(x))]))],
            prefix,
        ) == m.insert(prefix + a + "_"@ + trim_spec(b), Pref::Text(trim_spec(x))),
{
    let inner = seq![(Doc::Text(b), Doc::Text(x))];
    let outer = seq![(Doc::Text(a), Doc::Mapping(inner))];
    assert(outer.drop_first() =~= Seq::<(Doc, Doc)>::empty());
    assert(inner.drop_first() =~= Seq::<(Doc, Doc)>::empty());
    assert(outer[0] == (Doc::Text(a), Doc::Mapping(inner)));
    assert(inner[0] == (Doc::Text(b), Doc::Text(x)));
    let sub_prefix = prefix + a + "_"@;
    let m_inner = apply_entry(m, Doc::Text(b), Doc::Text(x), sub_prefix);
    assert(m_inner == m.insert(sub_prefix + trim_spec(b), Pref::Text(trim_spec(x))));
    assert(apply_entries(m_inner, Seq::<(Doc, Doc)>::empty(), sub_prefix) == m_inner);
    assert(apply_entries(m, inner, sub_prefix) == apply_entries(m_inner, inner.drop_first(), sub_prefix));
    assert(apply_entry(m, Doc::Text(a), Doc::Mapping(inner), prefix) == apply_entries(
        m,
        inner,
        sub_prefix,
    ));
    let m_outer = apply_entry(m, outer[0].0, outer[0].1, prefix);
    assert(apply_entries(m, outer, prefix) == apply_entries(m_outer, outer.drop_first(), prefix));
    assert(apply_entries(m_outer, Seq::<(Doc, Doc)>::empty(), prefix) == m_outer);
    assert(sub_prefix + trim_spec(b) =~= prefix + a + "_"@ + trim_spec(b));
}

proof fn lemma_lookup_at(entries: Seq<(Doc, Doc)>, k: Seq<char>, i: int)
    requires
        0 <= i < entries.len(),
        forall|j: int| 0 <= j < i ==> entries[j].0 != Doc::Text(k),
        entries[i].0 == Doc::Text(k),
    ensures
        lookup_key(entries, k) == Some(entries[i].1),
    decreases i,
{
    if i > 0 {
        let t = entries.drop_first();
        assert(forall|j: int| 0 <= j < i - 1 ==> t[j] == entries[j + 1]);
        lemma_lookup_at(t, k, i - 1);
    }
}

proof fn lemma_lookup_none(entries: Seq<(Doc, Doc)>, k: Seq<char>)
    requires
        forall|j: int| 0 <= j < entries.len() ==> entries[j].0 != Doc::Text(k),
    ensures
        lookup_key(entries, k) is None,
    decreases entries.len(),
{
    if entries.len() > 0 {
        let t = entries.drop_first();
        assert(forall|j: int| 0 <= j < t.len() ==> t[j] == entries[j + 1]);
        lemma_lookup_none(t, k);
    }
}

/// The first entry of the mapping whose key is the text `key`, if any.
fn lookup_entry<'a>(entries: &'a Vec<(DocValue, DocValue)>, key: &str) -> (r: Option<
    &'a DocValue,
>)
    ensures
        r matches Some(v) ==> lookup_key(doc_of_pairs(entries@), key@) == Some(doc_of(*v)),
        r is None ==> lookup_key(doc_of_pairs(entries@), key@) is None,
{
    let n = entries.len();
    let mut i: usize = 0;
    while i < n
        invariant
            0 <= i <= n,
            n == entries@.len(),
            forall|j: int|
                0 <= j < i ==> doc_of_pairs(entries@)[j].0 != Doc::Text(key@),
        decreases n - i,
    {
        proof {
            lemma_doc_of_pairs_index(entries@, i as int);
        }
        let entry = &entries[i];
        let matched: bool = match &entry.0 {
            DocValue::Text(s) => crate::text::str_eq(s.as_str(), key),
            _ => false,
        };
        if matched {
            proof {
                assert(doc_of_pairs(entries@)[i as int].0 == Doc::Text(key@));
                lemma_lookup_at(doc_of_pairs(entries@), key@, i as int);
                lemma_doc_of_pairs_len(entries@);
            }
            return Some(&entry.1);
        }
        proof {
            assert(doc_of_pairs(entries@)[i as int].0 == doc_of(entries@[i as int].0));
            assert(doc_of_pairs(entries@)[i as int].0 != Doc::Text(key@));
        }
        i = i + 1;
    }
    proof {
        lemma_doc_of_pairs_len(entries@);
        lemma_lookup_none(doc_of_pairs(entries@), key@);
    }
    None
}

/// Flattens the entries of one mapping into the preference set, as
/// [`apply_entries`] describes.
fn add_prefs(prefs: &mut Preferences, entries: &Vec<(DocValue, DocValue)>, prefix: &str)
    requires
        old(prefs).wf(),
    ensures
        final(prefs).wf(),
        final(prefs)@ == apply_entries(old(prefs)@, doc_of_pairs(entries@), prefix@),
    decreases entries@,
{
    let ghost s = doc_of_pairs(entries@);
    let n = entries.len();
    let mut i: usize = 0;
    proof {
        lemma_doc_of_pairs_len(entries@);
        assert(s.skip(0) =~= s);
    }
    while i < n
        invariant
            0 <= i <= n,
            n == entries@.len(),
            s == doc_of_pairs(entries@),
            s.len() == n,
            prefs.wf(),
            apply_entries(old(prefs)@, s, prefix@) == apply_entries(
                prefs@,
                s.skip(i as int),
                prefix@,
            ),
        decreases n - i,
    {
        proof {
            lemma_doc_of_pairs_index(entries@, i as int);
            assert(s.skip(i as int)[0] == s[i as int]);
            assert(s.skip(i as int).drop_first() =~= s.skip(i as int + 1));
        }
        let ghost m0 = prefs@;
        let entry = &entries[i];
        match (&entry.0, &entry.1) {
            (DocValue::Text(name), DocValue::Mapping(sub)) => {
                let mut np = prefix.to_owned();
                np.append(name.as_str());
                np.append("_");
                proof {
                    assert(np@ =~= prefix@ + name@ + "_"@);
                    assert(entries@[i as int].1 == DocValue::Mapping(*sub));
                    assert(decreases_to!(entries@ => entries@[i as int]));
                    assert(decreases_to!(entries@[i as int].1 => sub@));
                }
                add_prefs(prefs, sub, np.as_str());
                proof {
                    assert(prefs@ == apply_entry(m0, s[i as int].0, s[i as int].1, prefix@));
                }
            },
            (DocValue::Text(name), DocValue::List(items)) => {
                proof {
                    assert(prefs@ == apply_entry(m0, s[i as int].0, s[i as int].1, prefix@));
                }
            },
            (DocValue::Text(name), DocValue::Other) => {
                proof {
                    assert(prefs@ == apply_entry(m0, s[i as int].0, s[i as int].1, prefix@));
                }
            },
            (DocValue::Text(name), scalar) => {
                let mut kf = prefix.to_owned();
                let tn = crate::text::trim(name.as_str());
                kf.append(tn.as_str());
                proof {
                    assert(kf@ =~= prefix@ + trim_spec(name@));
                }
                let value: PrefValue = match scalar {
                    DocValue::Text(sv) => PrefValue::Text(crate::text::trim(sv.as_str())),
                    DocValue::Bool(b) => PrefValue::Bool(*b),
                    DocValue::Int(iv) => PrefValue::Int(*iv),
                    DocValue::Real(sv) => PrefValue::Real(sv.clone()),
                    _ => PrefValue::Bool(false),
                };
                prefs.insert(kf.as_str(), value);
                proof {
                    assert(prefs@ == apply_entry(m0, s[i as int].0, s[i as int].1, prefix@));
                }
            },
            _ => {
                proof {
                    assert(prefs@ == apply_entry(m0, s[i as int].0, s[i as int].1, prefix@));
                }
            },
        }
        proof {
            assert(apply_entries(m0, s.skip(i as int), prefix@) == apply_entries(
                prefs@,
                s.skip(i as int + 1),
                prefix@,
            ));
        }
        i = i + 1;
    }
    proof {
        assert(s.skip(n as int) =~= Seq::<(Doc, Doc)>::empty());
    }
}

/// Applies one namespace of a parsed document, as [`apply_ns`] describes.
fn add_namespace(prefs: &mut Preferences, doc: &DocValue, key: &str)
    requires
        old(prefs).wf(),
    ensures
        final(prefs).wf(),
        final(prefs)@ == apply_ns(old(prefs)@, doc_of(*doc), key@),
{
    match doc {
        DocValue::Mapping(entries) => {
            match lookup_entry(entries, key) {
                Some(v) => match v {
                    DocValue::Mapping(sub) => {
                        let empty_prefix = "";
                        proof {
                            reveal_strlit("");
                            assert(empty_prefix@ =~= Seq::<char>::empty());
                        }
                        add_prefs(prefs, sub, empty_prefix);
                    },
                    _ => {},
                },
                None => {},
            }
        },
        _ => {},
    }
}

/// Applies one preference-document text to the set: nothing changes unless
/// the text parses to exactly one document, whose recognized namespaces are
/// then flattened in, as [`apply_content`] describes.
pub fn load_content(prefs: &mut Preferences, text: &str)
    requires
        old(prefs).wf(),
    ensures
        final(prefs).wf(),
        final(prefs)@ == apply_content(old(prefs)@, text@),
{
    match parse_yaml(text) {
        Some(docs) => {
            if docs.len() == 1 {
                proof {
                    lemma_doc_of_list_index(docs@, 0);
                    assert(docs_view(docs@)[0] == doc_of(docs@[0]));
                }
                let doc = &docs[0];
                add_namespace(prefs, doc, "Speech");
                add_namespace(prefs, doc, "Navigation");
                add_namespace(prefs, doc, "Braille");
            } else {
                proof {
                    crate::doc::lemma_doc_of_list_len(docs@);
                }
            }
        },
        None => {},
    }
}

} // verus!
