use warmer::urls::{
    asset_requests, base_host, build_asset_url, coerce_scheme, display_path, extract_domain,
    is_on_host, normalize_url, origin_of, same_host_links,
};

fn strings(xs: &[&str]) -> Vec<String> {
    xs.iter().map(|x| x.to_string()).collect()
}

#[test]
fn asset_scheme_follows_https_page() {
    assert_eq!(coerce_scheme("http://x/a.css", "https"), "https://x/a.css");
    assert_eq!(
        asset_requests(&strings(&["http://x/a.css"]), "https://x/", "https"),
        strings(&["https://x/a.css"])
    );
}

#[test]
fn asset_scheme_follows_http_page() {
    assert_eq!(coerce_scheme("https://x/a.css", "http"), "http://x/a.css");
    assert_eq!(coerce_scheme("http://x/a.css", "http"), "http://x/a.css");
    assert_eq!(coerce_scheme("https://x/a.css", "https"), "https://x/a.css");
    assert_eq!(coerce_scheme("ftp://x/a.css", "https"), "ftp://x/a.css");
    assert_eq!(coerce_scheme("http://x/a.css", "ftp"), "http://x/a.css");
}

#[test]
fn only_the_scheme_is_rewritten() {
    assert_eq!(
        coerce_scheme("http://x/go?to=http://y/", "https"),
        "https://x/go?to=http://y/"
    );
}

#[test]
fn the_page_itself_is_not_requested_as_asset() {
    let assets = strings(&["http://x.org/", "https://x.org/a.js", "https://x.org", "http://x.org/b.png"]);
    assert_eq!(
        asset_requests(&assets, "https://x.org/", "https"),
        strings(&["https://x.org/a.js", "https://x.org/b.png"])
    );
    assert_eq!(asset_requests(&Vec::new(), "https://x.org/", "https"), Vec::<String>::new());
}

#[test]
fn normalize_drops_scheme_and_trailing_slashes() {
    assert_eq!(normalize_url("https://example.com/a/"), "example.com/a");
    assert_eq!(normalize_url("http://example.com///"), "example.com");
    assert_eq!(normalize_url("example.com"), "example.com");
    assert_eq!(normalize_url(""), "");
    assert_eq!(normalize_url("http://"), "");
}

#[test]
fn normalize_puts_dotless_paths_below_the_home_site() {
    assert_eq!(normalize_url("/about"), "abh.ai/about");
    assert_eq!(normalize_url("about/"), "abh.ai/about");
    assert_eq!(normalize_url("http://localhost/x"), "abh.ai/localhost/x");
}

#[test]
fn normalize_takes_out_every_scheme_occurrence() {
    assert_eq!(normalize_url("http://a.b/?u=https://c.d/"), "a.b/?u=c.d");
    assert_eq!(normalize_url("hhttp://ttp://x.y"), "http://x.y");
}

#[test]
fn references_are_resolved_against_the_origin() {
    assert_eq!(build_asset_url("http://cdn.x/a.js", "https://x"), "http://cdn.x/a.js");
    assert_eq!(build_asset_url("https://cdn.x/a.js", "https://x"), "https://cdn.x/a.js");
    assert_eq!(build_asset_url("//cdn.x/a.js", "http://x"), "https://cdn.x/a.js");
    assert_eq!(build_asset_url("/a.js", "https://x"), "https://x/a.js");
    assert_eq!(build_asset_url("a.js", "https://x"), "https://x/a.js");
    assert_eq!(build_asset_url("", "https://x"), "https://x/");
}

#[test]
fn origin_is_scheme_and_host() {
    let o = origin_of("https://example.com:8443/a/b?c=d");
    assert_eq!(o.base_url, "https://example.com");
    assert_eq!(o.protocol, "https");
    let o = origin_of("http://127.0.0.1/index.html");
    assert_eq!(o.base_url, "http://127.0.0.1");
    assert_eq!(o.protocol, "http");
}

#[test]
fn origin_of_hostless_url_is_localhost() {
    let o = origin_of("data:text/plain,Stuff");
    assert_eq!(o.base_url, "data://localhost");
    assert_eq!(o.protocol, "data");
}

#[test]
fn origin_of_what_is_no_url_is_https_localhost() {
    let o = origin_of("not a url");
    assert_eq!(o.base_url, "https://localhost");
    assert_eq!(o.protocol, "https");
}

#[test]
fn domain_is_the_parsed_host() {
    assert_eq!(extract_domain("https://Example.COM/x"), Some("example.com".to_string()));
    assert_eq!(extract_domain("ftp://rms@example.com"), Some("example.com".to_string()));
    assert_eq!(extract_domain("unix:/run/foo.socket"), None);
    assert_eq!(extract_domain("/relative/path"), None);
}

#[test]
fn base_host_defaults_to_localhost() {
    assert_eq!(base_host("https://shop.example.org/start"), "shop.example.org");
    assert_eq!(base_host("nonsense"), "localhost");
}

#[test]
fn links_are_held_to_the_base_host() {
    let links = strings(&[
        "https://x.org/a",
        "https://y.org/b",
        "http://x.org/c",
        "https://sub.x.org/d",
        "mailto:someone@x.org",
        "https://x.org:8080/e",
    ]);
    assert_eq!(
        same_host_links(&links, "x.org"),
        strings(&["https://x.org/a", "http://x.org/c", "https://x.org:8080/e"])
    );
}

#[test]
fn host_comparison_is_exact() {
    assert!(is_on_host(&Some("x.org".to_string()), &Some("x.org".to_string())));
    assert!(!is_on_host(&Some("x.org".to_string()), &Some("X.org".to_string())));
    assert!(!is_on_host(&Some("x.org".to_string()), &None));
    assert!(is_on_host(&None, &Some("anything".to_string())));
    assert!(is_on_host(&None, &None));
}

#[test]
fn shown_path_of_a_request() {
    assert_eq!(display_path("https://x.org/a/b?q=1"), "/a/b");
    assert_eq!(display_path("https://x.org"), "/");
    assert_eq!(display_path("no url"), "/");
}

#[test]
fn normalize_agrees_with_the_standard_text_functions() {
    let samples = [
        "", "/", "//", "http://", "https://", "http://x.y", "https://x.y/", "x.y///", "/path", "path",
        "path/", "http://localhost", "https://a/b/c/", "hthttp://tp://q.r", "https://http://z.z",
        "http://https://z.z/", "ünï", "a.b/é/", "http:/x.y", "HTTP://x.y",
    ];
    for url in samples {
        let without_protocol = url.replace("http://", "").replace("https://", "");
        let mut expected = without_protocol.trim_end_matches('/').to_string();
        if !expected.contains('.') && !expected.is_empty() {
            expected = format!(
                "abh.ai{}",
                if expected.starts_with('/') { expected } else { format!("/{}", expected) }
            );
        }
        assert_eq!(normalize_url(url), expected, "for {:?}", url);
    }
}

#[test]
fn resolution_agrees_with_the_standard_text_functions() {
    let references = ["http://a/b", "https://a/b", "//a/b", "/b", "b", "", "http:/a", "///x", "ftp://a"];
    let bases = ["https://x.org", "http://localhost", ""];
    for r in references {
        for base in bases {
            let expected = if r.starts_with("http://") || r.starts_with("https://") {
                r.to_string()
            } else if r.starts_with("//") {
                format!("https:{}", r)
            } else if r.starts_with("/") {
                format!("{}{}", base, r)
            } else {
                format!("{}/{}", base, r)
            };
            assert_eq!(build_asset_url(r, base), expected);
        }
    }
}
