use foxeye::parser::{
    clean_text, compose_text, join_nodes, keep_present, normalize_links, page_from_parts, FrontierRow,
};
use foxeye::{missing_ids, parse_document, parse_message, ConfigError, CrawlMessage, ParseError, SiteConfig, WebUrl};

const PAGE: &str = "<title>T</title><body>hello <a href=\"/a\">x</a><a href=\"http://other.test/b\">y</a></body>";

fn config() -> SiteConfig {
    SiteConfig::new(&vec!["http://example.test/".to_string()]).unwrap()
}

#[test]
fn full_cycle_page_and_frontier() {
    let msg = CrawlMessage::new("01H".to_string(), PAGE.to_string(), 0, "http://example.test/".to_string());
    let page = parse_message("01H", Some(msg)).unwrap();
    assert_eq!(page.title, "T");
    assert_eq!(page.text, "T hello x y");
    assert_eq!(page.links.len(), 2);
    let rows: Vec<FrontierRow> = config().frontier_rows(&page.links, page.depth);
    assert_eq!(rows.len(), 1);
    assert_eq!(rows[0].url, "http://example.test/a");
    assert_eq!(rows[0].host, "example.test");
    assert_eq!(rows[0].depth, 1);
}

#[test]
fn empty_body_is_not_a_document() {
    let base = WebUrl::parse("http://example.test/").unwrap();
    let r = parse_document("<title>only</title><body></body>", &base);
    assert_eq!(r.err(), Some(ParseError::EmptyBody));
    let msg = CrawlMessage::new("x".to_string(), "<html></html>".to_string(), 0, "http://example.test/".to_string());
    assert_eq!(parse_message("x", Some(msg)).err(), Some(ParseError::EmptyBody));
}

#[test]
fn parse_message_errors() {
    assert_eq!(parse_message("", None).err(), Some(ParseError::EmptyId));
    assert_eq!(parse_message("id", None).err(), Some(ParseError::MissingRecord));
    let msg = CrawlMessage::new("id".to_string(), PAGE.to_string(), 0, "no url".to_string());
    assert_eq!(parse_message("id", Some(msg)).err(), Some(ParseError::BadUrl));
}

#[test]
fn scripts_and_styles_are_dropped() {
    let base = WebUrl::parse("http://example.test/").unwrap();
    let (_, _, text) = parse_document(
        "<body>keep<script>var x = 1;</script><style>p{}</style> this</body>",
        &base,
    )
    .unwrap();
    assert!(!text.contains("var"));
    assert!(!text.contains("p{}"));
    assert!(text.contains("keep"));
}

#[test]
fn links_resolve_against_page() {
    let base = WebUrl::parse("http://example.test/dir/page").unwrap();
    let hrefs = vec![
        "next".to_string(),
        "/root".to_string(),
        "https://else.test/x".to_string(),
        "http://[bad".to_string(),
    ];
    let links = normalize_links(&base, &hrefs);
    let got: Vec<&str> = links.iter().map(|u| u.as_str()).collect();
    assert_eq!(got, vec!["http://example.test/dir/next", "http://example.test/root", "https://else.test/x"]);
}

#[test]
fn compose_and_clean_text() {
    assert_eq!(compose_text("T", ""), None);
    assert_eq!(compose_text("T", "b"), Some("T b".to_string()));
    assert_eq!(clean_text("a [note] b\tc\u{e9}d    e"), "a  bcde");
}

#[test]
fn site_config_hosts() {
    let c = config();
    assert!(c.is_allowed("example.test".to_string(), 5));
    assert!(!c.is_allowed("other.test".to_string(), 0));
    let bad = SiteConfig::new(&vec!["http://ok.test/".to_string(), "::".to_string()]);
    assert_eq!(bad.err().map(|_| ()), Some(()));
    let hostless = SiteConfig::new(&vec!["mailto:a@b.test".to_string()]);
    assert!(matches!(hostless, Err(ConfigError::NoHost)));
}

#[test]
fn reconciliation_sends_unchunked_only() {
    let docs = vec!["d1".to_string(), "d2".to_string(), "d3".to_string()];
    let chunked = vec!["d2".to_string()];
    assert_eq!(missing_ids(&docs, &chunked), vec!["d1".to_string(), "d3".to_string()]);
    let all = vec!["d1".to_string(), "d2".to_string(), "d3".to_string()];
    assert!(missing_ids(&docs, &all).is_empty());
    assert_eq!(missing_ids(&vec!["seed".to_string()], &vec![]), vec!["seed".to_string()]);
}

#[test]
fn text_nodes_join_with_single_spaces() {
    let nodes = vec!["hello ".to_string(), "x".to_string(), "  ".to_string(), "\n y\t".to_string()];
    assert_eq!(join_nodes(&nodes), "hello x y");
    assert_eq!(join_nodes(&vec![]), "");
    assert_eq!(join_nodes(&vec![" ".to_string()]), "");
}

#[test]
fn anchors_without_href_are_skipped() {
    let hrefs = vec![Some("/a".to_string()), None, Some("b".to_string())];
    assert_eq!(keep_present(&hrefs), vec!["/a".to_string(), "b".to_string()]);
}

#[test]
fn page_from_parts_cases() {
    let base = WebUrl::parse("http://example.test/").unwrap();
    let hrefs = vec![Some("/a".to_string()), None];
    let r = page_from_parts(Some(vec!["T".to_string()]), Some(vec![" ".to_string()]), &hrefs, &base);
    assert_eq!(r.err(), Some(ParseError::EmptyBody));
    let (links, title, text) =
        page_from_parts(None, Some(vec!["b\u{e9}ody ".to_string(), "[x] z".to_string()]), &hrefs, &base).unwrap();
    assert_eq!(title, "");
    assert_eq!(text, " body  z");
    assert_eq!(links.len(), 1);
    assert_eq!(links[0].as_str(), "http://example.test/a");
}

#[test]
fn script_inside_title_area_is_removed() {
    let base = WebUrl::parse("http://example.test/").unwrap();
    let (links, title, text) = parse_document(
        "<head><title>Page</title><script>var a;</script></head><body><style>.c{}</style>text <a>none</a><a href=\"/k\">k</a></body>",
        &base,
    )
    .unwrap();
    assert_eq!(title, "Page");
    assert_eq!(text, "Page text none k");
    assert_eq!(links.len(), 1);
    assert_eq!(links[0].as_str(), "http://example.test/k");
}

#[test]
fn cleaned_text_is_plain_ascii() {
    let t = clean_text("caf\u{e9}\r\nline\tend");
    assert_eq!(t, "caflineend");
    assert!(t.chars().all(|c| c.is_ascii() && c != '\t' && c != '\n' && c != '\r'));
}
