//! What the server keeps.

use crate::analysis::{symbols_of, Analysis};
use crate::backend::BackendView;
use crate::documents::{
    index_of_uri, lemma_index_of_uri, text_of, with_text, without_document, DocumentView,
};
use crate::laws::answers::law_other_documents_keep_their_definitions;
use crate::symbols::SymbolDefView;
use vstd::prelude::*;

verus! {

/// Whether document `i` is the first with a URI, or, where `i` is the number of
/// documents, whether there is none.
pub open spec fn is_first(docs: Seq<DocumentView>, uri: Seq<char>, i: int) -> bool {
    &&& 0 <= i <= docs.len()
    &&& i < docs.len() ==> docs[i].uri == uri
    &&& forall|j: int| 0 <= j < i ==> (#[trigger] docs[j]).uri != uri
}

proof fn lemma_first(docs: Seq<DocumentView>, uri: Seq<char>, i: int)
    requires
        is_first(docs, uri, i),
    ensures
        index_of_uri(docs, uri) == (if i < docs.len() {
            Some(i)
        } else {
            None
        }),
{
    lemma_index_of_uri(docs, uri);
    if let Some(k) = index_of_uri(docs, uri) {
        if k < i {
            assert(docs[k].uri != uri);
        } else if i < k {
            assert(docs[i].uri != uri);
        }
    } else if i < docs.len() {
        assert(docs[i].uri != uri);
    }
}

/// The text of a URI is that of the first document with it, and a URI without a
/// document has none.
pub proof fn law_texts_are_those_of_the_documents(docs: Seq<DocumentView>, uri: Seq<char>, i: int)
    requires
        is_first(docs, uri, i),
    ensures
        i < docs.len() ==> text_of(docs, uri) == Some(docs[i].text),
        i == docs.len() ==> text_of(docs, uri) is None,
{
    lemma_first(docs, uri, i);
}

/// A text takes the place of the document with its URI. Without such a document
/// it becomes the last one. No other document changes or moves.
pub proof fn law_texts_take_their_places(
    docs: Seq<DocumentView>,
    uri: Seq<char>,
    text: Seq<char>,
    i: int,
)
    requires
        is_first(docs, uri, i),
    ensures
        with_text(docs, uri, text) == docs.take(i) + seq![DocumentView { uri, text }] + (if i
            < docs.len() {
            docs.skip(i + 1)
        } else {
            Seq::empty()
        }),
{
    lemma_first(docs, uri, i);
    let one = seq![DocumentView { uri, text }];
    if i < docs.len() {
        assert(docs.update(i, DocumentView { uri, text }) =~= docs.take(i) + one + docs.skip(i + 1));
    } else {
        assert(docs.push(DocumentView { uri, text }) =~= docs.take(i) + one + Seq::<
            DocumentView,
        >::empty());
    }
}

/// Dropping a document leaves all others as they are, in their order.
pub proof fn law_dropping_a_document_leaves_the_others(
    docs: Seq<DocumentView>,
    uri: Seq<char>,
    i: int,
)
    requires
        is_first(docs, uri, i),
    ensures
        without_document(docs, uri) == docs.take(i) + (if i < docs.len() {
            docs.skip(i + 1)
        } else {
            Seq::empty()
        }),
{
    lemma_first(docs, uri, i);
    if i < docs.len() {
        assert(docs.remove(i) =~= docs.take(i) + docs.skip(i + 1));
    } else {
        assert(docs =~= docs.take(i) + Seq::<DocumentView>::empty());
    }
}

/// A document that is opened or changed has its new text. The definitions of all
/// other documents stay, in their order, and those that the analysis found come
/// behind them.
pub proof fn law_opened_documents(
    v: BackendView,
    uri: Seq<char>,
    text: Seq<char>,
    analysis: Analysis,
)
    ensures
        v.opened(uri, text, analysis).documents == with_text(v.documents, uri, text),
        v.opened(uri, text, analysis).symbol_defs == v.symbol_defs.filter(
            |d: SymbolDefView| d.uri != uri,
        ) + symbols_of(analysis, uri),
        v.scanned(uri, analysis).documents == v.documents,
        v.scanned(uri, analysis).symbol_defs == v.symbol_defs.filter(
            |d: SymbolDefView| d.uri != uri,
        ) + symbols_of(analysis, uri),
        v.text_of(uri) == text_of(v.documents, uri),
{
    law_other_documents_keep_their_definitions(v.symbol_defs, uri);
}

/// A document that is closed is dropped with its definitions. The definitions of
/// all other documents stay, in their order.
pub proof fn law_closed_documents(v: BackendView, uri: Seq<char>)
    ensures
        v.closed(uri).documents == without_document(v.documents, uri),
        v.closed(uri).symbol_defs == v.symbol_defs.filter(|d: SymbolDefView| d.uri != uri),
{
    law_other_documents_keep_their_definitions(v.symbol_defs, uri);
}

} // verus!
