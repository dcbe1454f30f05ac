use warmer::sitemap::{
    default_changefreq, default_lastmod, default_priority, default_sitemap_url, is_space_char,
    robots_url, sitemap_directive, sitemap_url_from_robots, Fetched, SitemapDocument,
    SitemapError, SitemapResolver, UrlSet, Urlc,
};

fn strings(xs: &[&str]) -> Vec<String> {
    xs.iter().map(|x| x.to_string()).collect()
}

fn body(status: u16, text: &str) -> Fetched {
    Fetched::Response { status, body: Some(text.to_string()) }
}

/// Resolves the sitemaps of a site whose documents are given by `site`:
/// for each URL its status code and what it holds.
fn resolve(first: &str, site: &[(&str, u16, SitemapDocument)]) -> (Vec<String>, Result<Vec<String>, SitemapError>) {
    let mut resolver = SitemapResolver::new(first.to_string());
    let mut asked = Vec::new();
    while let Some(url) = resolver.next_candidate() {
        assert!(asked.len() < 1000);
        asked.push(url.clone());
        if let Some((_, status, doc)) = site.iter().find(|(u, _, _)| *u == url) {
            resolver.record(*status, doc);
        }
    }
    assert!(!resolver.has_pending());
    (asked, resolver.finish())
}

#[test]
fn entry_without_changefreq_is_daily() {
    let set = UrlSet {
        url: vec![
            Urlc::new(
                "https://x/a".to_string(),
                Some("2024-01-01".to_string()),
                Some("weekly".to_string()),
                Some("0.8".to_string()),
            ),
            Urlc::new("https://x/b".to_string(), Some("2024-02-02".to_string()), None, Some("0.3".to_string())),
        ],
    };
    assert_eq!(set.url[0].changefreq, "weekly");
    assert_eq!(set.url[1].changefreq, "daily");
    assert_eq!(set.url[1].lastmod, "2024-02-02");
    assert_eq!(set.url[1].priority, "0.3");
    assert_eq!(set.locations(), strings(&["https://x/a", "https://x/b"]));
}

#[test]
fn entry_defaults() {
    let entry = Urlc::new("https://x/".to_string(), None, None, None);
    assert_eq!(entry.loc, "https://x/");
    assert_eq!(entry.lastmod, "2021-12-28T08:37Z");
    assert_eq!(entry.changefreq, "daily");
    assert_eq!(entry.priority, "0.5");
    assert_eq!(default_lastmod(), "2021-12-28T08:37Z");
    assert_eq!(default_changefreq(), "daily");
    assert_eq!(default_priority(), "0.5");
}

#[test]
fn index_of_two_overlapping_sitemaps_resolves_to_five_pages() {
    let site = [
        (
            "https://x/sitemap.xml",
            200,
            SitemapDocument::Index(strings(&["https://x/s1.xml", "https://x/s2.xml"])),
        ),
        (
            "https://x/s1.xml",
            200,
            SitemapDocument::Pages(strings(&["https://x/d", "https://x/shared", "https://x/b"])),
        ),
        (
            "https://x/s2.xml",
            200,
            SitemapDocument::Pages(strings(&["https://x/shared", "https://x/e", "https://x/a"])),
        ),
    ];
    let (asked, result) = resolve("https://x/sitemap.xml", &site);
    assert_eq!(asked, strings(&["https://x/sitemap.xml", "https://x/s1.xml", "https://x/s2.xml"]));
    assert_eq!(
        result,
        Ok(strings(&["https://x/a", "https://x/b", "https://x/d", "https://x/e", "https://x/shared"]))
    );
}

#[test]
fn candidates_are_looked_at_first_in_first_out() {
    let site = [
        ("r", 200, SitemapDocument::Index(strings(&["i1", "l1"]))),
        ("i1", 200, SitemapDocument::Index(strings(&["l2", "l3"]))),
        ("l1", 200, SitemapDocument::Pages(strings(&["p1"]))),
        ("l2", 200, SitemapDocument::Pages(strings(&["p2"]))),
        ("l3", 404, SitemapDocument::Pages(strings(&["never"]))),
    ];
    let (asked, result) = resolve("r", &site);
    assert_eq!(asked, strings(&["r", "i1", "l1", "l2", "l3"]));
    assert_eq!(result, Ok(strings(&["p1", "p2"])));
}

#[test]
fn no_candidate_answered_means_no_sitemap() {
    let site = [("r", 404, SitemapDocument::Unreadable)];
    let (_, result) = resolve("r", &site);
    assert_eq!(result, Err(SitemapError::NoSitemapFound));
    let (_, result) = resolve("missing", &[]);
    assert_eq!(result, Err(SitemapError::NoSitemapFound));
}

#[test]
fn sitemaps_without_pages_mean_no_urls() {
    let site = [("r", 200, SitemapDocument::Unreadable)];
    let (_, result) = resolve("r", &site);
    assert_eq!(result, Err(SitemapError::NoUrls));
    let site = [("r", 200, SitemapDocument::Pages(Vec::new()))];
    let (_, result) = resolve("r", &site);
    assert_eq!(result, Err(SitemapError::NoUrls));
    let site = [("r", 200, SitemapDocument::Index(Vec::new()))];
    let (_, result) = resolve("r", &site);
    assert_eq!(result, Err(SitemapError::NoUrls));
}

#[test]
fn a_failing_candidate_does_not_end_the_resolution() {
    let site = [
        ("r", 200, SitemapDocument::Index(strings(&["gone", "bad", "good"]))),
        ("bad", 200, SitemapDocument::Unreadable),
        ("good", 200, SitemapDocument::Pages(strings(&["p"]))),
    ];
    let (asked, result) = resolve("r", &site);
    assert_eq!(asked, strings(&["r", "gone", "bad", "good"]));
    assert_eq!(result, Ok(strings(&["p"])));
}

#[test]
fn sitemap_error_messages() {
    assert_eq!(SitemapError::NoSitemapFound.message(), "No valid sitemaps found");
    assert_eq!(SitemapError::NoUrls.message(), "No URLs found in any sitemap");
}

#[test]
fn a_document_that_reads_as_index_is_one() {
    assert!(matches!(
        SitemapDocument::classify(Some(strings(&["a"])), Some(strings(&["b"]))),
        SitemapDocument::Index(v) if v == strings(&["a"])
    ));
    assert!(matches!(
        SitemapDocument::classify(None, Some(strings(&["b"]))),
        SitemapDocument::Pages(v) if v == strings(&["b"])
    ));
    assert!(matches!(SitemapDocument::classify(None, None), SitemapDocument::Unreadable));
}

#[test]
fn robots_and_default_sitemap_locations() {
    assert_eq!(robots_url("https://x.org"), "https://x.org/robots.txt");
    assert_eq!(default_sitemap_url("https://x.org"), "https://x.org/sitemap.xml");
}

#[test]
fn first_sitemap_directive_is_taken() {
    let rules = "User-agent: *\nDisallow: /private\nSitemap: https://x.org/one.xml\nSitemap: https://x.org/two.xml\n";
    assert_eq!(sitemap_directive(rules), Some("https://x.org/one.xml".to_string()));
}

#[test]
fn sitemap_directive_in_any_case_and_with_white_space() {
    assert_eq!(sitemap_directive("SITEMAP:https://x/a.xml"), Some("https://x/a.xml".to_string()));
    assert_eq!(sitemap_directive("  sItEmAp:   https://x/b.xml  \r\n"), Some("https://x/b.xml".to_string()));
    assert_eq!(sitemap_directive("\tsitemap:\thttps://x/c.xml\t"), Some("https://x/c.xml".to_string()));
    assert_eq!(sitemap_directive("a\r\nsitemap: u\r\nb"), Some("u".to_string()));
}

#[test]
fn sitemap_directive_without_value_is_passed_over() {
    assert_eq!(sitemap_directive("Sitemap:\nSitemap:   \nSitemap: real"), Some("real".to_string()));
    assert_eq!(sitemap_directive("Sitemap:"), None);
}

#[test]
fn no_sitemap_directive() {
    assert_eq!(sitemap_directive(""), None);
    assert_eq!(sitemap_directive("User-agent: *\nDisallow: /"), None);
    assert_eq!(sitemap_directive("Sitemap https://x/a.xml"), None);
    assert_eq!(sitemap_directive("# Sitemap: https://x/a.xml"), None);
    assert_eq!(sitemap_directive("Site map: https://x/a.xml"), None);
    assert_eq!(sitemap_directive("\n\n\n"), None);
}

#[test]
fn sitemap_directive_agrees_with_the_standard_text_functions() {
    let samples = [
        "Sitemap: https://x/a.xml",
        " \u{a0}Sitemap:\u{3000}https://x/a.xml\u{2003}",
        "x\nSiteMap:one:two\ny",
        "sitemap::",
        "sitemap: a b ",
        "\r\nSitemap:\r\n\r\nsitemap: z\r",
        "Sıtemap: no",
        "SİTEMAP: no",
        "Sitemap:\u{b}\u{c}v",
        "abc",
    ];
    for text in samples {
        let mut expected = None;
        for line in text.lines() {
            let line = line.trim();
            if line.to_lowercase().starts_with("sitemap:") {
                let value = line.splitn(2, ':').nth(1).unwrap_or("").trim().to_string();
                if !value.is_empty() {
                    expected = Some(value);
                    break;
                }
            }
        }
        assert_eq!(sitemap_directive(text), expected, "for {:?}", text);
    }
}

#[test]
fn white_space_is_what_the_standard_library_calls_so() {
    for n in 0u32..0x11_0000 {
        if let Some(c) = char::from_u32(n) {
            assert_eq!(is_space_char(c), c.is_whitespace(), "for U+{:04X}", n);
        }
    }
}

#[test]
fn first_sitemap_comes_from_robots_or_defaults() {
    assert_eq!(
        sitemap_url_from_robots("https://x", &body(200, "Sitemap: https://x/map.xml")),
        "https://x/map.xml"
    );
    assert_eq!(sitemap_url_from_robots("https://x", &body(200, "Disallow: /")), "https://x/sitemap.xml");
    assert_eq!(
        sitemap_url_from_robots("https://x", &body(404, "Sitemap: https://x/map.xml")),
        "https://x/sitemap.xml"
    );
    assert_eq!(sitemap_url_from_robots("https://x", &Fetched::Failed), "https://x/sitemap.xml");
    assert_eq!(
        sitemap_url_from_robots("https://x", &Fetched::Response { status: 200, body: None }),
        "https://x/sitemap.xml"
    );
}
