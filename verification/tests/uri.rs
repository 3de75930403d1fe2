use lsp_types::Url;
use syma_lsp::protocol::Range;
use syma_lsp::uri::{locate, parse_uri};

#[test]
fn urls_are_kept_in_their_normal_form() {
    assert_eq!(parse_uri("file:///a/b.syma").as_deref(), Some("file:///a/b.syma"));
    assert_eq!(parse_uri("FILE:///a b").as_deref(), Some("file:///a%20b"));
    assert_eq!(parse_uri("untitled:Untitled-1").as_deref(), Some("untitled:Untitled-1"));
}

#[test]
fn paths_become_file_urls() {
    assert_eq!(parse_uri("/home/x.syma").as_deref(), Some("file:///home/x.syma"));
    assert_eq!(parse_uri("").as_deref(), Some("file:///"));
}

#[test]
fn some_texts_have_no_url() {
    assert_eq!(parse_uri("http://["), None);
}

#[test]
fn urls_are_those_of_the_url_parser() {
    for text in ["file:///a/../b", "http://EXAMPLE.com", "/x/é", "x y", "a:b", "http://a b"] {
        let expected = Url::parse(text)
            .or_else(|_| Url::parse(&format!("file://{}", text)))
            .ok()
            .map(|url| url.to_string());
        assert_eq!(parse_uri(text), expected);
    }
}

#[test]
fn ranges_are_located_at_urls() {
    let found = locate(Some("file:///a".to_string()), Range::zero()).unwrap();
    assert_eq!(found.uri, "file:///a");
    assert_eq!(found.range, Range::zero());
    assert!(locate(None, Range::zero()).is_none());
}
