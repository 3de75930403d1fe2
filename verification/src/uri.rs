//! Document addresses.

use crate::protocol::{Location, LocationView, Range};
use crate::strings::concat2;
use vstd::prelude::*;

verus! {

/// The serialisation of the absolute URL that a text parses to, if it does.
pub uninterp spec fn url_serialization(input: Seq<char>) -> Option<Seq<char>>;

/// `Url::parse` of the crate `url`, as the crate `lsp_types` hands it on, and
/// the text of the URL that it returns. Both depend on the input alone. What
/// the text of a URL looks like is not said here.
#[verifier::external_body]
fn parse_url(input: &str) -> (r: Option<String>)
    ensures
        r.deep_view() == url_serialization(input@),
{
    lsp_types::Url::parse(input).ok().map(String::from)
}

/// The URL of a document: its URI as it stands, or else as the path of a file.
pub open spec fn document_url(uri: Seq<char>) -> Option<Seq<char>> {
    match url_serialization(uri) {
        Some(url) => Some(url),
        None => url_serialization("file://"@ + uri),
    }
}

/// The URL of a document.
pub fn parse_uri(uri: &str) -> (r: Option<String>)
    ensures
        r.deep_view() == document_url(uri@),
{
    match parse_url(uri) {
        Some(url) => Some(url),
        None => {
            let file: String = concat2("file://", uri);
            parse_url(file.as_str())
        },
    }
}

/// A range at a URL, if there is one.
pub open spec fn location_of(url: Option<Seq<char>>, range: Range) -> Option<LocationView> {
    match url {
        Some(uri) => Some(LocationView { uri, range }),
        None => None,
    }
}

/// A range at a URL, if there is one.
pub fn locate(url: Option<String>, range: Range) -> (r: Option<Location>)
    ensures
        r.deep_view() == location_of(url.deep_view(), range),
{
    match url {
        Some(uri) => Some(Location { uri, range }),
        None => None,
    }
}

} // verus!
