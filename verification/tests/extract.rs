use fetch_links::links::extract_links;
use fetch_links::text::normalize_link_text;

#[test]
fn test_extract_links_simple() {
    let html = r#"<a href="https://example.com">Link</a>"#;
    let links = extract_links(html, "https://example.com");
    assert_eq!(links.len(), 1);
    assert_eq!(links[0].url, "https://example.com/");
    assert_eq!(links[0].text, "Link");
}

#[test]
fn test_extract_links_multiple() {
    let html = r#"
                        <a href="/one">Link 1</a>
                        <a href="https://google.com">Link 2</a>
        "#;
    let links = extract_links(html, "https://example.com");
    assert_eq!(links.len(), 2);
    assert_eq!(links[0].url, "https://example.com/one");
    assert_eq!(links[0].text, "Link 1");
    assert_eq!(links[1].url, "https://google.com/");
    assert_eq!(links[1].text, "Link 2");
}

#[test]
fn test_extract_links_no_href() {
    let html = "<a>No href</a>";
    let links = extract_links(html, "https://example.com");
    assert_eq!(links.len(), 0);
}

#[test]
fn test_extract_links_fragment() {
    let html = r##"<a href="#section">Jump</a>"##;
    let links = extract_links(html, "https://example.com/page");
    assert_eq!(links.len(), 1);
    assert_eq!(links[0].url, "https://example.com/page#section");
    assert_eq!(links[0].text, "Jump");
}

#[test]
fn test_extract_links_unresolvable_href_is_skipped() {
    // "http://" lacks a host, so it parses neither on its own nor against
    // the base; the anchor after it must still be extracted.
    let html = r#"<a href="http://">Bad</a><a href="/ok">Good</a>"#;
    let links = extract_links(html, "https://example.com");
    assert_eq!(links.len(), 1);
    assert_eq!(links[0].url, "https://example.com/ok");
    assert_eq!(links[0].text, "Good");
}

#[test]
fn test_extract_links_order_preserved() {
    let html = r#"<a href="/a">A</a><a href="/b">B</a><a href="/c">C</a>"#;
    let links = extract_links(html, "https://example.com");
    assert_eq!(links.len(), 3);
    assert_eq!(links[0].url, "https://example.com/a");
    assert_eq!(links[1].url, "https://example.com/b");
    assert_eq!(links[2].url, "https://example.com/c");
    assert_eq!(links[0].text, "A");
    assert_eq!(links[1].text, "B");
    assert_eq!(links[2].text, "C");
}

#[test]
fn test_extract_links_absolute_ignores_base() {
    let html = r#"<a href="https://other.net/page?q=1">Away</a>"#;
    let links = extract_links(html, "https://example.com/deep/dir/");
    assert_eq!(links.len(), 1);
    assert_eq!(links[0].url, "https://other.net/page?q=1");
}

#[test]
fn test_extract_links_relative_forms() {
    let html = r#"<a href="sibling.html">Sib</a><a href="?q=2">Query</a><a href="//cdn.example.net/lib.js">Scheme relative</a>"#;
    let links = extract_links(html, "https://example.com/a/b.html");
    assert_eq!(links.len(), 3);
    assert_eq!(links[0].url, "https://example.com/a/sibling.html");
    assert_eq!(links[1].url, "https://example.com/a/b.html?q=2");
    assert_eq!(links[2].url, "https://cdn.example.net/lib.js");
}

#[test]
fn test_extract_links_empty_href_resolves() {
    // An empty href still qualifies: it resolves to the base document.
    let html = r#"<a href="">Self</a>"#;
    let links = extract_links(html, "https://example.com/page");
    assert_eq!(links.len(), 1);
    assert_eq!(links[0].url, "https://example.com/page");
}

#[test]
fn test_extract_links_nested_text_normalized() {
    let html = "<a href=\"/x\">  One\n\t<b>Two</b>  Three </a>";
    let links = extract_links(html, "https://example.com");
    assert_eq!(links.len(), 1);
    assert_eq!(links[0].text, "One Two Three");
}

#[test]
fn test_extract_links_empty_text() {
    let html = r#"<a href="/x"></a>"#;
    let links = extract_links(html, "https://example.com");
    assert_eq!(links.len(), 1);
    assert_eq!(links[0].url, "https://example.com/x");
    assert_eq!(links[0].text, "");
}

#[test]
fn test_extract_links_empty_document() {
    let links = extract_links("", "https://example.com");
    assert_eq!(links.len(), 0);
}

#[test]
fn test_extract_links_invalid_base_keeps_absolute() {
    // With an unparseable base, relative hrefs are skipped but absolute
    // ones still come through.
    let html = r#"<a href="/rel">R</a><a href="https://example.com/x">A</a>"#;
    let links = extract_links(html, "not a url");
    assert_eq!(links.len(), 1);
    assert_eq!(links[0].url, "https://example.com/x");
}

#[test]
fn test_normalize_link_text_example() {
    assert_eq!(normalize_link_text("  Link \n Two  "), "Link Two");
}

#[test]
fn test_normalize_link_text_idempotent() {
    let once = normalize_link_text("  Link \n Two  ");
    assert_eq!(normalize_link_text(&once), once);
    assert_eq!(normalize_link_text("Link Two"), "Link Two");
}

#[test]
fn test_normalize_link_text_edges() {
    assert_eq!(normalize_link_text(""), "");
    assert_eq!(normalize_link_text(" \t\r\n "), "");
    assert_eq!(normalize_link_text("one"), "one");
    assert_eq!(normalize_link_text("\ta  b\r\nc "), "a b c");
}
