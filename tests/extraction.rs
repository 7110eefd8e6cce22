use html5ever::tokenizer::{
    BufferQueue, CharacterTokens, TagKind, TagToken, Token, TokenSink, TokenSinkResult, Tokenizer,
    TokenizerOpts,
};
use link_crawler::extract::{
    get_links, scan_tokens, AnchorAccumulator, HtmlToken, LabeledUrl, TagAttribute,
};
use link_crawler::web_url::{UrlFault, WebUrl};

struct Collector {
    tokens: Vec<HtmlToken>,
}

impl TokenSink for Collector {
    type Handle = ();

    fn process_token(&mut self, token: Token, _line_number: u64) -> TokenSinkResult<()> {
        let t = match token {
            TagToken(tag) => {
                let name = tag.name.to_string();
                match tag.kind {
                    TagKind::StartTag => HtmlToken::StartTag {
                        name,
                        attributes: tag
                            .attrs
                            .iter()
                            .map(|a| TagAttribute {
                                name: a.name.local.to_string(),
                                value: a.value.to_string(),
                            })
                            .collect(),
                    },
                    TagKind::EndTag => HtmlToken::EndTag { name },
                }
            }
            CharacterTokens(s) => HtmlToken::Text(s.to_string()),
            _ => HtmlToken::Other,
        };
        self.tokens.push(t);
        TokenSinkResult::Continue
    }
}

fn tokenize(html: &str) -> Vec<HtmlToken> {
    let mut tokenizer = Tokenizer::new(Collector { tokens: Vec::new() }, TokenizerOpts::default());
    let mut buffer = BufferQueue::new();
    buffer.push_back(html.into());
    let _ = tokenizer.feed(&mut buffer);
    tokenizer.end();
    tokenizer.sink.tokens
}

fn url(s: &str) -> WebUrl {
    WebUrl::parse(s).unwrap()
}

fn pairs(links: &[LabeledUrl]) -> Vec<(String, String)> {
    links
        .iter()
        .map(|l| (l.text.clone(), l.url.as_str().to_string()))
        .collect()
}

fn extract(base: &str, html: &str) -> Vec<(String, String)> {
    match get_links(&url(base), &tokenize(html)) {
        Ok(v) => pairs(&v),
        Err(e) => panic!("unexpected malformed link {}", e.href),
    }
}

fn start(name: &str, attrs: &[(&str, &str)]) -> HtmlToken {
    HtmlToken::StartTag {
        name: name.to_string(),
        attributes: attrs
            .iter()
            .map(|(n, v)| TagAttribute { name: n.to_string(), value: v.to_string() })
            .collect(),
    }
}

fn end(name: &str) -> HtmlToken {
    HtmlToken::EndTag { name: name.to_string() }
}

fn text(s: &str) -> HtmlToken {
    HtmlToken::Text(s.to_string())
}

#[test]
fn relative_link_resolves_against_domain() {
    let got = extract("https://example.com/page", r#"<a href="/x">hello</a>"#);
    assert_eq!(got, vec![("hello".to_string(), "https://example.com/x".to_string())]);
}

#[test]
fn absolute_href_passes_through() {
    let got = extract("https://example.com/page", r#"<a href="https://other.org/y">z</a>"#);
    assert_eq!(got, vec![("z".to_string(), "https://other.org/y".to_string())]);
    let again = extract("http://elsewhere.net:81/deep/path?q=2", r#"<a href="https://other.org/y">z</a>"#);
    assert_eq!(again, got);
}

#[test]
fn nested_text_is_concatenated() {
    let got = extract("https://example.com/page", r#"<a href="/a"><b>bold</b> text</a>"#);
    assert_eq!(got, vec![("bold text".to_string(), "https://example.com/a".to_string())]);
}

#[test]
fn anchor_without_href_is_ignored() {
    let got = extract("https://example.com/page", "<a>no link</a>");
    assert!(got.is_empty());
}

#[test]
fn domain_root_keeps_scheme_host_and_port() {
    let got = extract("https://example.com:8080/a/b?x=1", r#"<a href="/c">c</a>"#);
    assert_eq!(got, vec![("c".to_string(), "https://example.com:8080/c".to_string())]);
    let root = url("https://example.com:8080/a/b?x=1").domain_root();
    assert_eq!(root.as_str(), "https://example.com:8080/");
}

#[test]
fn relative_path_without_slash_joins_the_root() {
    let got = extract("https://example.com/dir/page?q=1", r#"<a href="next">n</a>"#);
    assert_eq!(got, vec![("n".to_string(), "https://example.com/next".to_string())]);
}

#[test]
fn extraction_twice_gives_the_same_links() {
    let html = r#"<p><a href="/one">1</a> and <a href="https://b.org/two">2</a></p>"#;
    let base = url("https://example.com/start");
    let tokens = tokenize(html);
    let first = pairs(&get_links(&base, &tokens).ok().unwrap());
    let second = pairs(&get_links(&base, &tokens).ok().unwrap());
    assert_eq!(first, second);
    assert_eq!(
        first,
        vec![
            ("1".to_string(), "https://example.com/one".to_string()),
            ("2".to_string(), "https://b.org/two".to_string()),
        ]
    );
}

#[test]
fn links_come_in_document_order() {
    let got = extract(
        "https://example.com/",
        r#"<a href="/1">a</a><div><a href="/2">b</a></div><a href="/3">c</a>"#,
    );
    let urls: Vec<String> = got.into_iter().map(|p| p.1).collect();
    assert_eq!(
        urls,
        vec!["https://example.com/1", "https://example.com/2", "https://example.com/3"]
    );
}

#[test]
fn unclosed_anchor_yields_nothing() {
    let got = extract("https://example.com/", r#"<a href="/done">x</a><a href="/open">never closed"#);
    assert_eq!(got, vec![("x".to_string(), "https://example.com/done".to_string())]);
}

#[test]
fn malformed_link_is_an_error() {
    let r = get_links(&url("https://example.com/"), &tokenize(r#"<a href="http://[::1">bad</a>"#));
    match r {
        Err(e) => assert_eq!(e.href, "http://[::1"),
        Ok(_) => panic!("a malformed link was accepted"),
    }
}

#[test]
fn parse_tells_relative_from_malformed() {
    assert_eq!(WebUrl::parse("../main.css").err(), Some(UrlFault::RelativeWithoutBase));
    assert_eq!(WebUrl::parse("http://[::1").err(), Some(UrlFault::Malformed));
    assert_eq!(url("HTTPS://Example.COM").as_str(), "https://example.com/");
}

#[test]
fn resolve_against_root() {
    let root = url("https://example.com/");
    assert_eq!(root.resolve("/c/d").unwrap().as_str(), "https://example.com/c/d");
    assert_eq!(root.resolve("ftp://files.org/x").unwrap().as_str(), "ftp://files.org/x");
    assert!(root.resolve("http://[::1").is_none());
}

#[test]
fn accumulator_follows_tokens() {
    let mut acc = AnchorAccumulator::new();
    acc.process_token(&text("outside"));
    acc.process_token(&start("a", &[("class", "k"), ("href", "/h")]));
    acc.process_token(&text("in"));
    acc.process_token(&start("b", &[]));
    acc.process_token(&text("side"));
    acc.process_token(&end("b"));
    acc.process_token(&HtmlToken::Other);
    acc.process_token(&end("a"));
    acc.process_token(&text("after"));
    acc.process_token(&end("a"));
    let links = acc.into_links();
    assert_eq!(links.len(), 1);
    assert_eq!(links[0].text, "inside");
    assert_eq!(links[0].href, "/h");
}

#[test]
fn last_href_attribute_wins() {
    let links = scan_tokens(&vec![
        start("a", &[("href", "/first"), ("href", "/second")]),
        text("t"),
        end("a"),
    ]);
    assert_eq!(links.len(), 1);
    assert_eq!(links[0].href, "/second");
}

#[test]
fn new_anchor_replaces_open_one() {
    let links = scan_tokens(&vec![
        start("a", &[("href", "/1")]),
        text("one"),
        start("a", &[("href", "/2")]),
        text("two"),
        end("a"),
        end("a"),
    ]);
    assert_eq!(links.len(), 1);
    assert_eq!(links[0].text, "two");
    assert_eq!(links[0].href, "/2");
}

#[test]
fn empty_document_has_no_links() {
    assert!(scan_tokens(&Vec::new()).is_empty());
    assert!(extract("https://example.com/", "").is_empty());
}
