//! The knowledge base: documents and the context text built from the
//! retrieved ones.
use vstd::prelude::*;
use crate::text::{push_str};

verus! {

/// One retrievable document of the knowledge base (its precomputed
/// embedding is kept beside it by the service).
pub struct Document {
    /// Unique identifier, e.g. `org-overview`.
    pub id: String,
    /// The project the document belongs to.
    pub project: String,
    /// Title.
    pub title: String,
    /// Body text.
    pub content: String,
    /// Related link, if any.
    pub url: Option<String>,
}

/// The contents of a [`Document`].
pub struct DocumentView {
    pub id: Seq<char>,
    pub project: Seq<char>,
    pub title: Seq<char>,
    pub content: Seq<char>,
    pub url: Option<Seq<char>>,
}

impl View for Document {
    type V = DocumentView;

    open spec fn view(&self) -> DocumentView {
        DocumentView {
            id: self.id@,
            project: self.project@,
            title: self.title@,
            content: self.content@,
            url: self.url.deep_view(),
        }
    }
}

/// The views of a document list.
pub open spec fn doc_views(docs: Seq<Document>) -> Seq<DocumentView> {
    docs.map_values(|d: Document| d@)
}

/// The context block of a document: `# <title>` on one line, then the body.
pub open spec fn doc_block(d: DocumentView) -> Seq<char> {
    seq!['#', ' '] + d.title + seq!['\n'] + d.content
}

/// The blocks of the documents at the given indices, in index order; indices
/// past the end of `docs` are skipped.
pub open spec fn retrieved(docs: Seq<DocumentView>, indices: Seq<usize>) -> Seq<Seq<char>>
    decreases indices.len(),
{
    if indices.len() == 0 {
        seq![]
    } else {
        let rest = retrieved(docs, indices.drop_last());
        let i = indices.last();
        if i < docs.len() {
            rest.push(doc_block(docs[i as int]))
        } else {
            rest
        }
    }
}

/// The block of one document.
fn block_of(d: &Document) -> (res: String)
    ensures
        res@ == doc_block(d@),
{
    let mut s = String::new();
    s.push('#');
    s.push(' ');
    push_str(&mut s, d.title.as_str());
    s.push('\n');
    push_str(&mut s, d.content.as_str());
    assert(s@ == doc_block(d@));
    s
}

/// Formats the documents at `indices` as context blocks (`# title\ncontent`),
/// in the order of `indices`, skipping indices that are out of range.
pub fn retrieve(docs: &[Document], indices: &[usize]) -> (res: Vec<String>)
    ensures
        res.deep_view() == retrieved(doc_views(docs@), indices@),
{
    let mut out: Vec<String> = Vec::new();
    let mut k: usize = 0;
    while k < indices.len()
        invariant
            k <= indices.len(),
            out.deep_view() == retrieved(doc_views(docs@), indices@.take(k as int)),
        decreases indices.len() - k,
    {
        assert(indices@.take(k + 1).drop_last() == indices@.take(k as int));
        assert(indices@.take(k + 1).last() == indices@[k as int]);
        let i = indices[k];
        if i < docs.len() {
            let b = block_of(&docs[i]);
            let ghost before = out.deep_view();
            out.push(b);
            assert(out.deep_view() == before.push(doc_block(doc_views(docs@)[i as int])));
        }
        k = k + 1;
    }
    assert(indices@.take(indices.len() as int) == indices@);
    out
}

/// The first non-empty link among the documents at `indices` (indices past
/// the end are skipped).
pub open spec fn first_link(docs: Seq<DocumentView>, indices: Seq<usize>) -> Option<Seq<char>>
    decreases indices.len(),
{
    if indices.len() == 0 {
        None
    } else {
        let i = indices[0];
        let rest = first_link(docs, indices.drop_first());
        if i < docs.len() {
            match docs[i as int].url {
                Some(u) => if u.len() > 0 {
                    Some(u)
                } else {
                    rest
                },
                None => rest,
            }
        } else {
            rest
        }
    }
}

/// Finds the first non-empty link among the documents at `indices`.
pub fn first_doc_link(docs: &[Document], indices: &[usize]) -> (res: Option<String>)
    ensures
        res.deep_view() == first_link(doc_views(docs@), indices@),
{
    let mut k: usize = 0;
    assert(indices@.skip(0) == indices@);
    while k < indices.len()
        invariant
            k <= indices.len(),
            first_link(doc_views(docs@), indices@) == first_link(
                doc_views(docs@),
                indices@.skip(k as int),
            ),
        decreases indices.len() - k,
    {
        assert(indices@.skip(k as int).drop_first() == indices@.skip(k + 1));
        assert(indices@.skip(k as int)[0] == indices@[k as int]);
        let i = indices[k];
        if i < docs.len() {
            assert(doc_views(docs@)[i as int] == docs@[i as int]@);
            match &docs[i].url {
                Some(u) => {
                    if !u.as_str().is_empty() {
                        return Some(u.clone());
                    }
                },
                None => {},
            }
        }
        k = k + 1;
    }
    assert(indices@.skip(k as int).len() == 0);
    None
}

} // verus!
