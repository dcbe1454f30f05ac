//! What a page refers to: the assets it loads and the links it offers,
//! read from its HTML and resolved against the page's origin.

use crate::text::{has_prefix, str_starts_with, texts};
use crate::urls::{
    asset_plan, asset_requests, build_asset_url, extract_domain, host_of, is_on_host, on_host,
    origin_base, origin_of, origin_protocol, parsed_url, resolved,
};
use vstd::prelude::*;

verus! {

/// The texts of a list of attribute values, of which some may be absent.
pub open spec fn values(v: Seq<Option<String>>) -> Seq<Option<Seq<char>>> {
    v.map_values(
        |o: Option<String>|
            match o {
                Some(s) => Some(s@),
                None => None,
            },
    )
}

/// What the HTML parser finds in the fragment `html`: for each element
/// that matches the CSS selector `selector`, in the order in which the
/// parser walks its tree, the value of its attribute `attr`, if it has
/// one. Nothing where `selector` is no selector.
pub uninterp spec fn selected_values(html: Seq<char>, selector: Seq<char>, attr: Seq<char>) -> Option<
    Seq<Option<Seq<char>>>,
>;

/// Reads one attribute from the elements of an HTML fragment that match
/// a selector.
///
/// Trusted: `scraper::Html::parse_fragment`, `scraper::Selector::parse`,
/// `Html::select` and `Element::attr`. The outcome depends on the three
/// arguments alone; the contract gives it the name `selected_values` and
/// says nothing else of it.
#[verifier::external_body]
fn select_values(html: &str, selector: &str, attr: &str) -> (found: Option<Vec<Option<String>>>)
    ensures
        found matches Some(v) ==> selected_values(html@, selector@, attr@) == Some(values(v@)),
        found is None ==> selected_values(html@, selector@, attr@) is None,
{
    match scraper::Selector::parse(selector) {
        Ok(sel) => Some(
            scraper::Html::parse_fragment(html).select(&sel).map(
                |e| e.value().attr(attr).map(|v| v.to_string()),
            ).collect(),
        ),
        Err(_) => None,
    }
}

/// The URLs that the references of `refs` stand for on a page of origin
/// `base_url`, in order. Absent values are passed over, and with
/// `skip_inline` so are references that hold their data themselves:
/// those that start with `data:`.
pub open spec fn resolved_refs(refs: Seq<Option<Seq<char>>>, base_url: Seq<char>, skip_inline: bool) -> Seq<
    Seq<char>,
>
    decreases refs.len(),
{
    if refs.len() == 0 {
        Seq::empty()
    } else {
        let earlier = resolved_refs(refs.drop_last(), base_url, skip_inline);
        match refs.last() {
            Some(r) => if skip_inline && has_prefix(r, "data:"@) {
                earlier
            } else {
                earlier.push(resolved(r, base_url))
            },
            None => earlier,
        }
    }
}

/// The references found by one selector, or none where the selector
/// was refused.
pub open spec fn found_or_none(found: Option<Seq<Option<Seq<char>>>>) -> Seq<Option<Seq<char>>> {
    match found {
        Some(v) => v,
        None => Seq::empty(),
    }
}

/// The assets of a page: what its `link` elements refer to, then its
/// scripts, then its images but for those held inline as `data:`.
pub open spec fn assets_of(
    links: Option<Seq<Option<Seq<char>>>>,
    scripts: Option<Seq<Option<Seq<char>>>>,
    images: Option<Seq<Option<Seq<char>>>>,
    base_url: Seq<char>,
) -> Seq<Seq<char>> {
    resolved_refs(found_or_none(links), base_url, false) + resolved_refs(
        found_or_none(scripts),
        base_url,
        false,
    ) + resolved_refs(found_or_none(images), base_url, true)
}

/// Resolves the references that one selector found and adds them to
/// `out`.
fn resolve_into(
    out: &mut Vec<String>,
    found: &Option<Vec<Option<String>>>,
    base_url: &str,
    skip_inline: bool,
)
    ensures
        texts(final(out)@) == texts(old(out)@) + resolved_refs(
            found_or_none(
                match found {
                    Some(v) => Some(values(v@)),
                    None => None,
                },
            ),
            base_url@,
            skip_inline,
        ),
{
    let ghost start = texts(out@);
    match found {
        None => {
            assert(texts(out@) =~= start + Seq::<Seq<char>>::empty());
        },
        Some(refs) => {
            let mut i: usize = 0;
            assert(texts(out@) =~= start + Seq::<Seq<char>>::empty());
            while i < refs.len()
                invariant
                    i <= refs.len(),
                    texts(out@) == start + resolved_refs(
                        values(refs@).subrange(0, i as int),
                        base_url@,
                        skip_inline,
                    ),
                decreases refs.len() - i,
            {
                assert(values(refs@).subrange(0, i + 1).drop_last() =~= values(refs@).subrange(
                    0,
                    i as int,
                ));
                let ghost held = texts(out@);
                let ghost earlier = resolved_refs(
                    values(refs@).subrange(0, i as int),
                    base_url@,
                    skip_inline,
                );
                match &refs[i] {
                    Some(r) => {
                        if !(skip_inline && str_starts_with(r.as_str(), "data:")) {
                            let url = build_asset_url(r.as_str(), base_url);
                            out.push(url);
                            assert(texts(out@) =~= held.push(resolved(r@, base_url@)));
                            assert(held.push(resolved(r@, base_url@)) =~= start + earlier.push(
                                resolved(r@, base_url@),
                            ));
                        }
                    },
                    None => {},
                }
                i += 1;
            }
            assert(values(refs@).subrange(0, i as int) =~= values(refs@));
        },
    }
}

/// The assets of a page, given what its `link`, `script` and `img`
/// elements refer to.
pub fn assets_from(
    links: &Option<Vec<Option<String>>>,
    scripts: &Option<Vec<Option<String>>>,
    images: &Option<Vec<Option<String>>>,
    base_url: &str,
) -> (out: Vec<String>)
    ensures
        texts(out@) == assets_of(
            match links {
                Some(v) => Some(values(v@)),
                None => None,
            },
            match scripts {
                Some(v) => Some(values(v@)),
                None => None,
            },
            match images {
                Some(v) => Some(values(v@)),
                None => None,
            },
            base_url@,
        ),
{
    let mut out: Vec<String> = Vec::new();
    assert(texts(out@) =~= Seq::<Seq<char>>::empty());
    resolve_into(&mut out, links, base_url, false);
    resolve_into(&mut out, scripts, base_url, false);
    resolve_into(&mut out, images, base_url, true);
    assert(texts(out@) =~= assets_of(
        match links {
            Some(v) => Some(values(v@)),
            None => None,
        },
        match scripts {
            Some(v) => Some(values(v@)),
            None => None,
        },
        match images {
            Some(v) => Some(values(v@)),
            None => None,
        },
        base_url@,
    ));
    out
}

/// The static assets that the HTML of a page of origin `base_url` loads:
/// the targets of its `link` elements, its scripts and its images, inline
/// images left out, each as a URL.
pub fn extract_assets(html_content: &str, base_url: &str) -> (out: Vec<String>)
    ensures
        texts(out@) == assets_of(
            selected_values(html_content@, "link[href]"@, "href"@),
            selected_values(html_content@, "script[src]"@, "src"@),
            selected_values(html_content@, "img[src]"@, "src"@),
            base_url@,
        ),
{
    let links = select_values(html_content, "link[href]", "href");
    let scripts = select_values(html_content, "script[src]", "src");
    let images = select_values(html_content, "img[src]", "src");
    assets_from(&links, &scripts, &images, base_url)
}

/// The requests that follow the request for a page: none where assets
/// are not loaded or the page brought no HTML, and else one for each
/// asset of the page but the page itself, under the page's scheme.
pub open spec fn page_asset_plan(
    html_content: Option<Seq<char>>,
    url: Seq<char>,
    load_assets: bool,
) -> Seq<Seq<char>> {
    match html_content {
        Some(html) => if load_assets {
            let base_url = origin_base(parsed_url(url));
            asset_plan(
                assets_of(
                    selected_values(html, "link[href]"@, "href"@),
                    selected_values(html, "script[src]"@, "src"@),
                    selected_values(html, "img[src]"@, "src"@),
                    base_url,
                ),
                url,
                origin_protocol(parsed_url(url)),
            )
        } else {
            Seq::empty()
        },
        None => Seq::empty(),
    }
}

/// The URLs to request after the page at `url` was answered with the
/// HTML `html_content`, if any.
pub fn page_asset_requests(html_content: &Option<String>, url: &str, load_assets: bool) -> (out:
    Vec<String>)
    ensures
        texts(out@) == page_asset_plan(
            match html_content {
                Some(html) => Some(html@),
                None => None,
            },
            url@,
            load_assets,
        ),
{
    match html_content {
        Some(html) => {
            if load_assets {
                let origin = origin_of(url);
                let assets = extract_assets(html.as_str(), origin.base_url.as_str());
                asset_requests(&assets, url, origin.protocol.as_str())
            } else {
                let out: Vec<String> = Vec::new();
                assert(texts(out@) =~= Seq::<Seq<char>>::empty());
                out
            }
        },
        None => {
            let out: Vec<String> = Vec::new();
            assert(texts(out@) =~= Seq::<Seq<char>>::empty());
            out
        },
    }
}

/// A reference of an anchor is followed unless it is empty, points into
/// its own page, or is a `javascript:`, `mailto:` or `tel:` reference.
pub open spec fn is_followable(href: Seq<char>) -> bool {
    &&& href.len() > 0
    &&& !has_prefix(href, "#"@)
    &&& !has_prefix(href, "javascript:"@)
    &&& !has_prefix(href, "mailto:"@)
    &&& !has_prefix(href, "tel:"@)
}

/// True when the reference `href` of an anchor is followed.
pub fn followable(href: &str) -> (b: bool)
    ensures
        b == is_followable(href@),
{
    !href.is_empty() && !str_starts_with(href, "#") && !str_starts_with(href, "javascript:")
        && !str_starts_with(href, "mailto:") && !str_starts_with(href, "tel:")
}

/// The links of a page: each followable reference of `hrefs`, resolved
/// against `base_url`, that is on the host `base_domain`, in order.
pub open spec fn links_of(
    hrefs: Seq<Option<Seq<char>>>,
    base_url: Seq<char>,
    base_domain: Option<Seq<char>>,
) -> Seq<Seq<char>>
    decreases hrefs.len(),
{
    if hrefs.len() == 0 {
        Seq::empty()
    } else {
        let earlier = links_of(hrefs.drop_last(), base_url, base_domain);
        match hrefs.last() {
            Some(h) => if is_followable(h) && on_host(
                base_domain,
                host_of(parsed_url(resolved(h, base_url))),
            ) {
                earlier.push(resolved(h, base_url))
            } else {
                earlier
            },
            None => earlier,
        }
    }
}

/// The links of a page, given what its anchors refer to and the host
/// `base_domain` that links are held to.
pub fn links_from(hrefs: &Vec<Option<String>>, base_url: &str, base_domain: &Option<String>) -> (out:
    Vec<String>)
    ensures
        texts(out@) == links_of(
            values(hrefs@),
            base_url@,
            match base_domain {
                Some(h) => Some(h@),
                None => None,
            },
        ),
{
    let ghost domain = match base_domain {
        Some(h) => Some(h@),
        None => None,
    };
    let mut out: Vec<String> = Vec::new();
    let mut i: usize = 0;
    assert(texts(out@) =~= Seq::<Seq<char>>::empty());
    while i < hrefs.len()
        invariant
            i <= hrefs.len(),
            domain == match base_domain {
                Some(h) => Some(h@),
                None => None,
            },
            texts(out@) == links_of(values(hrefs@).subrange(0, i as int), base_url@, domain),
        decreases hrefs.len() - i,
    {
        assert(values(hrefs@).subrange(0, i + 1).drop_last() =~= values(hrefs@).subrange(
            0,
            i as int,
        ));
        match &hrefs[i] {
            Some(h) => {
                if followable(h.as_str()) {
                    let url = build_asset_url(h.as_str(), base_url);
                    let host = extract_domain(url.as_str());
                    if is_on_host(base_domain, &host) {
                        let ghost held = texts(out@);
                        out.push(url);
                        assert(texts(out@) =~= held.push(resolved(h@, base_url@)));
                    }
                }
            },
            None => {},
        }
        i += 1;
    }
    assert(values(hrefs@).subrange(0, i as int) =~= values(hrefs@));
    out
}

/// The links that the HTML of a page of origin `base_url` offers on the
/// page's own host, each as a URL.
pub fn extract_links(html_content: &str, base_url: &str) -> (out: Vec<String>)
    ensures
        texts(out@) == links_of(
            found_or_none(selected_values(html_content@, "a[href]"@, "href"@)),
            base_url@,
            host_of(parsed_url(base_url@)),
        ),
{
    let base_domain = extract_domain(base_url);
    match select_values(html_content, "a[href]", "href") {
        Some(hrefs) => links_from(&hrefs, base_url, &base_domain),
        None => {
            let out: Vec<String> = Vec::new();
            assert(texts(out@) =~= Seq::<Seq<char>>::empty());
            out
        },
    }
}

/// The entries of `found` that are URLs a browser gave in full: those
/// present that start with `http`, in order.
pub open spec fn full_urls(found: Seq<Option<Seq<char>>>) -> Seq<Seq<char>>
    decreases found.len(),
{
    if found.len() == 0 {
        Seq::empty()
    } else {
        let earlier = full_urls(found.drop_last());
        match found.last() {
            Some(v) => if has_prefix(v, "http"@) {
                earlier.push(v)
            } else {
                earlier
            },
            None => earlier,
        }
    }
}

/// The URLs among the values that a browser previews of a list it did
/// not hand over whole: those present that start with `http`.
pub fn urls_from_preview(found: &Vec<Option<String>>) -> (out: Vec<String>)
    ensures
        texts(out@) == full_urls(values(found@)),
{
    let mut out: Vec<String> = Vec::new();
    let mut i: usize = 0;
    assert(texts(out@) =~= Seq::<Seq<char>>::empty());
    while i < found.len()
        invariant
            i <= found.len(),
            texts(out@) == full_urls(values(found@).subrange(0, i as int)),
        decreases found.len() - i,
    {
        assert(values(found@).subrange(0, i + 1).drop_last() =~= values(found@).subrange(
            0,
            i as int,
        ));
        match &found[i] {
            Some(v) => {
                if str_starts_with(v.as_str(), "http") {
                    let ghost held = texts(out@);
                    out.push(v.clone());
                    assert(texts(out@) =~= held.push(v@));
                }
            },
            None => {},
        }
        i += 1;
    }
    assert(values(found@).subrange(0, i as int) =~= values(found@));
    out
}

} // verus!
