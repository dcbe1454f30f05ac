use warmer::extract::{
    assets_from, extract_assets, extract_links, followable, links_from, page_asset_requests,
    urls_from_preview,
};

fn strings(xs: &[&str]) -> Vec<String> {
    xs.iter().map(|x| x.to_string()).collect()
}

fn some(xs: &[&str]) -> Vec<Option<String>> {
    xs.iter().map(|x| Some(x.to_string())).collect()
}

const PAGE: &str = r##"
<html><head>
<link rel="stylesheet" href="/style.css">
<link rel="icon" href="https://cdn.example/favicon.ico">
<link rel="preload">
<script src="app.js"></script>
<script>inline()</script>
</head><body>
<img src="//img.example/logo.png">
<img src="data:image/png;base64,AAAA">
<img alt="no source">
<a href="/about">About</a>
<a href="https://example.com/contact">Contact</a>
<a href="https://other.org/">Elsewhere</a>
<a href="#top">Top</a>
<a href="">Empty</a>
<a href="javascript:void(0)">Script</a>
<a href="mailto:me@example.com">Mail</a>
<a href="tel:+123">Call</a>
<a>No target</a>
<a href="news">News</a>
</body></html>
"##;

#[test]
fn assets_of_a_page() {
    assert_eq!(
        extract_assets(PAGE, "https://example.com"),
        strings(&[
            "https://example.com/style.css",
            "https://cdn.example/favicon.ico",
            "https://example.com/app.js",
            "https://img.example/logo.png",
        ])
    );
}

#[test]
fn assets_of_a_page_without_any() {
    assert_eq!(extract_assets("<p>nothing here</p>", "https://example.com"), Vec::<String>::new());
    assert_eq!(extract_assets("", "https://example.com"), Vec::<String>::new());
}

#[test]
fn links_of_a_page_stay_on_its_host() {
    assert_eq!(
        extract_links(PAGE, "https://example.com"),
        strings(&[
            "https://example.com/about",
            "https://example.com/contact",
            "https://example.com/news",
        ])
    );
}

#[test]
fn links_of_a_page_without_known_host_are_all_kept() {
    assert_eq!(
        extract_links(r#"<a href="https://a.org/1">1</a><a href="https://b.org/2">2</a>"#, "nowhere"),
        strings(&["https://a.org/1", "https://b.org/2"])
    );
}

#[test]
fn assets_from_references_in_order_of_kind() {
    let links = Some(some(&["/a.css"]));
    let scripts = Some(vec![None, Some("b.js".to_string())]);
    let images = Some(some(&["data:image/gif;base64,R0", "c.png", "http://i.x/d.png"]));
    assert_eq!(
        assets_from(&links, &scripts, &images, "http://x"),
        strings(&["http://x/a.css", "http://x/b.js", "http://x/c.png", "http://i.x/d.png"])
    );
    assert_eq!(assets_from(&None, &None, &None, "http://x"), Vec::<String>::new());
}

#[test]
fn inline_data_of_any_kind_is_no_image_asset() {
    let images = Some(some(&["data:text/plain,hello", "data:,", "data.png", "DATA:x"]));
    assert_eq!(
        assets_from(&None, &None, &images, "http://x"),
        strings(&["http://x/data.png", "http://x/DATA:x"])
    );
}

#[test]
fn inline_images_count_only_among_images() {
    let inline = Some(some(&["data:image/png;base64,AA"]));
    assert_eq!(
        assets_from(&inline, &None, &None, "http://x"),
        strings(&["http://x/data:image/png;base64,AA"])
    );
    assert_eq!(assets_from(&None, &None, &inline, "http://x"), Vec::<String>::new());
}

#[test]
fn followable_references() {
    assert!(followable("/a"));
    assert!(followable("https://x/"));
    assert!(followable("page#part"));
    assert!(!followable(""));
    assert!(!followable("#part"));
    assert!(!followable("javascript:go()"));
    assert!(!followable("mailto:a@b.c"));
    assert!(!followable("tel:1"));
    assert!(followable("JAVASCRIPT:go()"));
}

#[test]
fn links_from_references() {
    let hrefs = vec![
        Some("/in".to_string()),
        None,
        Some("#skip".to_string()),
        Some("https://else.org/out".to_string()),
    ];
    assert_eq!(
        links_from(&hrefs, "https://x.org", &Some("x.org".to_string())),
        strings(&["https://x.org/in"])
    );
    assert_eq!(
        links_from(&hrefs, "https://x.org", &None),
        strings(&["https://x.org/in", "https://else.org/out"])
    );
}

#[test]
fn preview_values_that_are_urls() {
    let found = vec![
        Some("https://x/a".to_string()),
        None,
        Some("3".to_string()),
        Some("http://x/b".to_string()),
        Some("ftp://x/c".to_string()),
    ];
    assert_eq!(urls_from_preview(&found), strings(&["https://x/a", "http://x/b"]));
}

#[test]
fn requests_that_follow_a_page() {
    let html = Some(
        r##"<link href="http://example.com/a.css"><script src="/b.js"></script><img src="https://example.com/">"##
            .to_string(),
    );
    assert_eq!(
        page_asset_requests(&html, "https://example.com/", true),
        strings(&["https://example.com/a.css", "https://example.com/b.js"])
    );
    assert_eq!(page_asset_requests(&html, "https://example.com/", false), Vec::<String>::new());
    assert_eq!(page_asset_requests(&None, "https://example.com/", true), Vec::<String>::new());
}
