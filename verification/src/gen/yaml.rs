//! Documents of strings, lists and tables, and their text as YAML.

use vstd::prelude::*;

verus! {

/// The value type of the `serde_yaml` crate. A document of the library is
/// turned into one of these to be written out.
#[verifier::external_type_specification]
#[verifier::external_body]
pub struct ExYamlValue(serde_yaml::Value);

/// A document: a string, a list of documents, or a table of documents
/// under their keys.
#[derive(Debug, PartialEq, Eq)]
pub enum Doc {
    Text(String),
    List(Vec<Doc>),
    Table(Vec<(String, Doc)>),
}

/// The mathematical value of a [`Doc`].
pub enum DocView {
    Text(Seq<char>),
    List(Seq<DocView>),
    Table(Seq<(Seq<char>, DocView)>),
}

impl Doc {
    /// The mathematical value of this document.
    pub open spec fn model(self) -> DocView
        decreases self,
    {
        match self {
            Doc::Text(s) => DocView::Text(s@),
            Doc::List(items) => DocView::List(
                Seq::new(
                    items@.len(),
                    |i: int|
                        if 0 <= i < items@.len() {
                            items@[i].model()
                        } else {
                            arbitrary()
                        },
                ),
            ),
            Doc::Table(entries) => DocView::Table(
                Seq::new(
                    entries@.len(),
                    |i: int|
                        if 0 <= i < entries@.len() {
                            (entries@[i].0@, entries@[i].1.model())
                        } else {
                            arbitrary()
                        },
                ),
            ),
        }
    }
}

impl View for Doc {
    type V = DocView;

    open spec fn view(&self) -> DocView {
        self.model()
    }
}

/// The values of a list of documents.
pub open spec fn docs_view(v: Seq<Doc>) -> Seq<DocView> {
    Seq::new(v.len(), |i: int| v[i]@)
}

/// The values of the entries of a table.
pub open spec fn table_view(v: Seq<(String, Doc)>) -> Seq<(Seq<char>, DocView)> {
    Seq::new(v.len(), |i: int| (v[i].0@, v[i].1@))
}

/// The view of a list holds the views of its items.
pub proof fn lemma_list_view(items: Vec<Doc>)
    ensures
        Doc::List(items)@ == DocView::List(docs_view(items@)),
{
    assert(Doc::List(items)@->List_0 =~= docs_view(items@));
}

/// The view of a table holds the views of its entries.
pub proof fn lemma_table_view(entries: Vec<(String, Doc)>)
    ensures
        Doc::Table(entries)@ == DocView::Table(table_view(entries@)),
{
    assert(Doc::Table(entries)@->Table_0 =~= table_view(entries@));
}

/// The text that the `serde_yaml` crate writes for a document, if it can
/// write it.
pub uninterp spec fn yaml_text(doc: DocView) -> Option<Seq<char>>;

/// Turns a document of the library into a `serde_yaml::Value`: a string, a
/// sequence, or a mapping with strings for keys.
#[verifier::external_body]
fn outside_value(doc: &Doc) -> serde_yaml::Value {
    match doc {
        Doc::Text(s) => serde_yaml::Value::String(s.clone()),
        Doc::List(items) => serde_yaml::Value::Sequence(items.iter().map(outside_value).collect()),
        Doc::Table(entries) => serde_yaml::Value::Mapping(
            entries.iter().map(|e| (serde_yaml::Value::String(e.0.clone()), outside_value(&e.1))).collect(),
        ),
    }
}

/// Calls `serde_yaml::to_string` on the value of the document: the result
/// is the text that the crate writes for it, named [`yaml_text`], and
/// nothing where the crate reports an error.
#[verifier::external_body]
pub(crate) fn to_yaml(doc: &Doc) -> (r: Option<String>)
    ensures
        crate::opt_view(r) == yaml_text(doc@),
{
    serde_yaml::to_string(&outside_value(doc)).ok()
}

} // verus!
