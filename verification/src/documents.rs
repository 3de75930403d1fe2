//! The open documents.

use crate::strings::{copied, same};
use vstd::prelude::*;

verus! {

/// An open document.
#[derive(Debug)]
pub struct Document {
    pub uri: String,
    pub text: String,
}

/// An open document, with its texts as character sequences.
#[verifier::ext_equal]
pub struct DocumentView {
    pub uri: Seq<char>,
    pub text: Seq<char>,
}

impl DeepView for Document {
    type V = DocumentView;

    open spec fn deep_view(&self) -> DocumentView {
        DocumentView { uri: self.uri@, text: self.text@ }
    }
}

/// The index of the document with a URI.
pub open spec fn index_of_uri(docs: Seq<DocumentView>, uri: Seq<char>) -> Option<int>
    decreases docs.len(),
{
    if docs.len() == 0 {
        None
    } else if docs[0].uri == uri {
        Some(0)
    } else {
        match index_of_uri(docs.drop_first(), uri) {
            Some(i) => Some(i + 1),
            None => None,
        }
    }
}

/// The text of the document with a URI.
pub open spec fn text_of(docs: Seq<DocumentView>, uri: Seq<char>) -> Option<Seq<char>> {
    match index_of_uri(docs, uri) {
        Some(i) => Some(docs[i].text),
        None => None,
    }
}

/// The documents with a text put in the place of the document with a URI.
pub open spec fn with_text(docs: Seq<DocumentView>, uri: Seq<char>, text: Seq<char>) -> Seq<
    DocumentView,
> {
    match index_of_uri(docs, uri) {
        Some(i) => docs.update(i, DocumentView { uri, text }),
        None => docs.push(DocumentView { uri, text }),
    }
}

/// The documents without the one with a URI.
pub open spec fn without_document(docs: Seq<DocumentView>, uri: Seq<char>) -> Seq<DocumentView> {
    match index_of_uri(docs, uri) {
        Some(i) => docs.remove(i),
        None => docs,
    }
}

/// Whether no two documents share a URI.
pub open spec fn are_distinct(docs: Seq<DocumentView>) -> bool {
    forall|i: int, j: int|
        0 <= i < j < docs.len() ==> (#[trigger] docs[i]).uri != (#[trigger] docs[j]).uri
}

/// The index of a URI is that of the first document with it.
pub proof fn lemma_index_of_uri(docs: Seq<DocumentView>, uri: Seq<char>)
    ensures
        match index_of_uri(docs, uri) {
            Some(i) => {
                &&& 0 <= i < docs.len()
                &&& docs[i].uri == uri
                &&& forall|j: int| 0 <= j < i ==> (#[trigger] docs[j]).uri != uri
            },
            None => forall|j: int| 0 <= j < docs.len() ==> (#[trigger] docs[j]).uri != uri,
        },
    decreases docs.len(),
{
    if docs.len() > 0 && docs[0].uri != uri {
        let rest = docs.drop_first();
        lemma_index_of_uri(rest, uri);
        assert(forall|j: int| 0 < j < docs.len() ==> #[trigger] docs[j] == rest[j - 1]);
    }
}

/// A document with a URI is the document of the URI, if URIs are distinct.
pub proof fn lemma_index_of_uri_is(docs: Seq<DocumentView>, uri: Seq<char>, i: int)
    requires
        are_distinct(docs),
        0 <= i < docs.len(),
        docs[i].uri == uri,
    ensures
        index_of_uri(docs, uri) == Some(i),
{
    lemma_index_of_uri(docs, uri);
    let k = index_of_uri(docs, uri)->Some_0;
    if k < i {
        assert(docs[k].uri != docs[i].uri);
    } else if i < k {
        assert(docs[i].uri != uri);
    }
}

/// A text that is put in place is found under its URI, and no other document
/// changes.
pub proof fn law_with_text(
    docs: Seq<DocumentView>,
    uri: Seq<char>,
    text: Seq<char>,
    other: Seq<char>,
)
    requires
        are_distinct(docs),
    ensures
        are_distinct(with_text(docs, uri, text)),
        text_of(with_text(docs, uri, text), uri) == Some(text),
        other != uri ==> text_of(with_text(docs, uri, text), other) == text_of(docs, other),
{
    let after = with_text(docs, uri, text);
    lemma_index_of_uri(docs, uri);
    let at = match index_of_uri(docs, uri) {
        Some(i) => i,
        None => docs.len() as int,
    };
    assert(are_distinct(after)) by {
        assert forall|i: int, j: int| 0 <= i < j < after.len() implies (#[trigger] after[i]).uri
            != (#[trigger] after[j]).uri by {
            if i < docs.len() && j < docs.len() {
                assert(docs[i].uri != docs[j].uri);
            } else {
                assert(docs[i].uri != uri);
            }
        }
    }
    lemma_index_of_uri_is(after, uri, at);
    if other != uri {
        lemma_index_of_uri(docs, other);
        lemma_index_of_uri(after, other);
        match index_of_uri(docs, other) {
            Some(k) => {
                assert(after[k].uri == other);
                lemma_index_of_uri_is(after, other, k);
            },
            None => {
                match index_of_uri(after, other) {
                    Some(k) => {
                        assert(after[k].uri == other);
                        assert(docs[k].uri == other);
                    },
                    None => {},
                }
            },
        }
    }
}

/// A document that is dropped is not found any more, and no other document
/// changes.
pub proof fn law_without_document(docs: Seq<DocumentView>, uri: Seq<char>, other: Seq<char>)
    requires
        are_distinct(docs),
    ensures
        are_distinct(without_document(docs, uri)),
        text_of(without_document(docs, uri), uri) is None,
        other != uri ==> text_of(without_document(docs, uri), other) == text_of(docs, other),
{
    let after = without_document(docs, uri);
    lemma_index_of_uri(docs, uri);
    match index_of_uri(docs, uri) {
        Some(at) => {
            assert(forall|k: int| 0 <= k < at ==> #[trigger] after[k] == docs[k]);
            assert(forall|k: int| at <= k < after.len() ==> #[trigger] after[k] == docs[k + 1]);
            assert forall|i: int, j: int| 0 <= i < j < after.len() implies (
            #[trigger] after[i]).uri != (#[trigger] after[j]).uri by {
                let a = if i < at {
                    i
                } else {
                    i + 1
                };
                let b = if j < at {
                    j
                } else {
                    j + 1
                };
                assert(docs[a].uri != docs[b].uri);
            }
            lemma_index_of_uri(after, uri);
            match index_of_uri(after, uri) {
                Some(k) => {
                    let a = if k < at {
                        k
                    } else {
                        k + 1
                    };
                    assert(docs[a].uri == uri);
                    if a < at {
                        assert(docs[a].uri != docs[at].uri);
                    } else {
                        assert(docs[at].uri != docs[a].uri);
                    }
                },
                None => {},
            }
            if other != uri {
                lemma_index_of_uri(docs, other);
                lemma_index_of_uri(after, other);
                match index_of_uri(docs, other) {
                    Some(k) => {
                        let a = if k < at {
                            k
                        } else {
                            k - 1
                        };
                        assert(after[a] == docs[k]);
                        lemma_index_of_uri_is(after, other, a);
                    },
                    None => {
                        match index_of_uri(after, other) {
                            Some(k) => {
                                let a = if k < at {
                                    k
                                } else {
                                    k + 1
                                };
                                assert(docs[a].uri == other);
                            },
                            None => {},
                        }
                    },
                }
            }
        },
        None => {},
    }
}

/// The index of the document with a URI.
pub fn find_document(docs: &Vec<Document>, uri: &str) -> (r: Option<usize>)
    ensures
        match r {
            Some(i) => index_of_uri(docs.deep_view(), uri@) == Some(i as int) && i < docs@.len(),
            None => index_of_uri(docs.deep_view(), uri@) is None,
        },
{
    let ghost all = docs.deep_view();
    let mut i: usize = 0;
    assert(all.skip(0) =~= all);
    while i < docs.len()
        invariant
            i <= docs@.len(),
            all == docs.deep_view(),
            index_of_uri(all, uri@) == (match index_of_uri(all.skip(i as int), uri@) {
                Some(k) => Some(k + i),
                None => None::<int>,
            }),
        decreases docs@.len() - i,
    {
        assert(all.skip(i as int)[0] == docs@[i as int].deep_view());
        assert(all.skip(i as int).drop_first() =~= all.skip(i + 1));
        if same(docs[i].uri.as_str(), uri) {
            return Some(i);
        }
        i += 1;
    }
    None
}

/// The text of the document with a URI.
pub fn find_text<'a>(docs: &'a Vec<Document>, uri: &str) -> (r: Option<&'a String>)
    ensures
        r.deep_view() == text_of(docs.deep_view(), uri@),
{
    match find_document(docs, uri) {
        Some(i) => Some(&docs[i].text),
        None => None,
    }
}

/// Puts a text in the place of the document with a URI.
pub fn put_text(docs: &mut Vec<Document>, uri: &str, text: &str)
    ensures
        final(docs).deep_view() == with_text(old(docs).deep_view(), uri@, text@),
{
    let document = Document { uri: copied(uri), text: copied(text) };
    match find_document(docs, uri) {
        Some(i) => {
            docs.set(i, document);
        },
        None => {
            docs.push(document);
        },
    }
    assert(docs.deep_view() =~= with_text(old(docs).deep_view(), uri@, text@));
}

/// Drops the document with a URI.
pub fn drop_document(docs: &mut Vec<Document>, uri: &str)
    ensures
        final(docs).deep_view() == without_document(old(docs).deep_view(), uri@),
{
    match find_document(docs, uri) {
        Some(i) => {
            docs.remove(i);
        },
        None => {},
    }
    assert(docs.deep_view() =~= without_document(old(docs).deep_view(), uri@));
}

} // verus!
