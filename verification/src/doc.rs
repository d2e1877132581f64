//! The generic parsed-document tree: scalars, mappings and sequences, as the
//! preference loader sees them. The executable tree [`DocValue`] is produced
//! from YAML text by a trusted wrapper over the parser crate; the mathematical
//! tree [`Doc`] is its value in specifications.

use vstd::prelude::*;

verus! {

/// A parsed document node, at the specification level.
pub enum Doc {
    Text(Seq<char>),
    Bool(bool),
    Int(int),
    Real(Seq<char>),
    Mapping(Seq<(Doc, Doc)>),
    List(Seq<Doc>),
    Other,
}

/// A parsed document node. Real numbers keep their textual form, as the
/// parser hands them out.
pub enum DocValue {
    Text(String),
    Bool(bool),
    Int(i64),
    Real(String),
    Mapping(Vec<(DocValue, DocValue)>),
    List(Vec<DocValue>),
    Other,
}

/// The mathematical value of a parsed node.
pub open spec fn doc_of(d: DocValue) -> Doc
    decreases d,
{
    match d {
        DocValue::Text(s) => Doc::Text(s@),
        DocValue::Bool(b) => Doc::Bool(b),
        DocValue::Int(i) => Doc::Int(i as int),
        DocValue::Real(s) => Doc::Real(s@),
        DocValue::Mapping(v) => Doc::Mapping(doc_of_pairs(v@)),
        DocValue::List(v) => Doc::List(doc_of_list(v@)),
        DocValue::Other => Doc::Other,
    }
}

/// The mathematical value of a sequence of mapping entries.
pub open spec fn doc_of_pairs(v: Seq<(DocValue, DocValue)>) -> Seq<(Doc, Doc)>
    decreases v,
{
    if v.len() == 0 {
        Seq::empty()
    } else {
        seq![(doc_of(v[0].0), doc_of(v[0].1))] + doc_of_pairs(v.drop_first())
    }
}

/// The mathematical value of a sequence of nodes.
pub open spec fn doc_of_list(v: Seq<DocValue>) -> Seq<Doc>
    decreases v,
{
    if v.len() == 0 {
        Seq::empty()
    } else {
        seq![doc_of(v[0])] + doc_of_list(v.drop_first())
    }
}

/// The mathematical value of a sequence of documents.
pub open spec fn docs_view(v: Seq<DocValue>) -> Seq<Doc> {
    doc_of_list(v)
}

pub proof fn lemma_doc_of_pairs_index(v: Seq<(DocValue, DocValue)>, i: int)
    requires
        0 <= i < v.len(),
    ensures
        doc_of_pairs(v).len() == v.len(),
        doc_of_pairs(v)[i] == (doc_of(v[i].0), doc_of(v[i].1)),
    decreases v.len(),
{
    lemma_doc_of_pairs_len(v);
    if i > 0 {
        lemma_doc_of_pairs_index(v.drop_first(), i - 1);
    }
}

pub proof fn lemma_doc_of_pairs_len(v: Seq<(DocValue, DocValue)>)
    ensures
        doc_of_pairs(v).len() == v.len(),
    decreases v.len(),
{
    if v.len() > 0 {
        lemma_doc_of_pairs_len(v.drop_first());
    }
}

pub proof fn lemma_doc_of_list_len(v: Seq<DocValue>)
    ensures
        doc_of_list(v).len() == v.len(),
    decreases v.len(),
{
    if v.len() > 0 {
        lemma_doc_of_list_len(v.drop_first());
    }
}

pub proof fn lemma_doc_of_list_index(v: Seq<DocValue>, i: int)
    requires
        0 <= i < v.len(),
    ensures
        doc_of_list(v).len() == v.len(),
        doc_of_list(v)[i] == doc_of(v[i]),
    decreases v.len(),
{
    lemma_doc_of_list_len(v);
    if i > 0 {
        lemma_doc_of_list_index(v.drop_first(), i - 1);
    }
}

/// What the YAML parser yields for a given text: the documents it contains,
/// or nothing when the text is malformed. The result is a function of the
/// text alone.
pub uninterp spec fn parsed_yaml(text: Seq<char>) -> Option<Seq<Doc>>;

/// Relies on yaml_rust::YamlLoader::load_from_str: parses YAML text into its
/// documents; the outcome depends on the text alone, so it is named by
/// [`parsed_yaml`]. Scalars keep their parsed shape (strings, booleans,
/// integers, reals in textual form); aliases, nulls and bad values become
/// [`DocValue::Other`].
#[verifier::external_body]
pub fn parse_yaml(text: &str) -> (r: Option<Vec<DocValue>>)
    ensures
        r is Some <==> parsed_yaml(text@) is Some,
        r matches Some(docs) ==> parsed_yaml(text@) == Some(docs_view(docs@)),
{
    match yaml_rust::YamlLoader::load_from_str(text) {
        Ok(docs) => Some(docs.iter().map(yaml_to_doc).collect()),
        Err(_) => None,
    }
}

/// The parser crate's own node type, declared so that the conversion below
/// can take it; the library never looks inside it.
#[verifier::external_type_specification]
#[verifier::external_body]
pub struct ExYaml(yaml_rust::Yaml);

/// Relies on the yaml_rust::Yaml document shape: carries each parsed node
/// into the library's tree, variant for variant.
#[verifier::external_body]
fn yaml_to_doc(y: &yaml_rust::Yaml) -> DocValue {
    match y {
        yaml_rust::Yaml::String(s) => DocValue::Text(s.clone()),
        yaml_rust::Yaml::Boolean(b) => DocValue::Bool(*b),
        yaml_rust::Yaml::Integer(i) => DocValue::Int(*i),
        yaml_rust::Yaml::Real(s) => DocValue::Real(s.clone()),
        yaml_rust::Yaml::Array(v) => DocValue::List(v.iter().map(yaml_to_doc).collect()),
        yaml_rust::Yaml::Hash(h) => DocValue::Mapping(
            h.iter().map(|(k, v)| (yaml_to_doc(k), yaml_to_doc(v))).collect(),
        ),
        _ => DocValue::Other,
    }
}

} // verus!
