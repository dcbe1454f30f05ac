//! The rules on URLs: what a page's origin is, how a reference found on
//! a page becomes a URL, which assets of a page are requested and under
//! which scheme, and which links are followed.

use crate::text::{
    chars_of, joined, contains_char, has_prefix, remove_all, starts_with, str_eq, string_from,
    string_of, texts, trim_end, trim_end_char, without,
};
use vstd::prelude::*;

verus! {

/// The parts of a URL that the rules read, as mathematical values.
pub struct UrlPartsView {
    pub scheme: Seq<char>,
    pub host: Option<Seq<char>>,
    pub path: Seq<char>,
}

/// The parts of a URL that the rules read.
#[derive(Debug)]
pub struct UrlParts {
    pub scheme: String,
    pub host: Option<String>,
    pub path: String,
}

impl View for UrlParts {
    type V = UrlPartsView;

    open spec fn view(&self) -> UrlPartsView {
        UrlPartsView {
            scheme: self.scheme@,
            host: match self.host {
                Some(h) => Some(h@),
                None => None,
            },
            path: self.path@,
        }
    }
}

/// What the URL parser makes of `input`: the parts of the URL, or
/// nothing where `input` is no absolute URL.
pub uninterp spec fn parsed_url(input: Seq<char>) -> Option<UrlPartsView>;

/// Parses an absolute URL.
///
/// Trusted: `url::Url::parse`, with `scheme`, `host_str` and `path` read
/// from the URL it returns. The outcome depends on `input` alone; the
/// contract gives it the name `parsed_url` and says nothing else of it.
#[verifier::external_body]
fn parse_url(input: &str) -> (parts: Option<UrlParts>)
    ensures
        parts matches Some(p) ==> parsed_url(input@) == Some(p@),
        parts is None ==> parsed_url(input@) is None,
{
    match url::Url::parse(input) {
        Ok(u) => Some(
            UrlParts {
                scheme: u.scheme().to_string(),
                host: u.host_str().map(|h| h.to_string()),
                path: u.path().to_string(),
            },
        ),
        Err(_) => None,
    }
}

/// The host of a URL, if it parses and has one.
pub open spec fn host_of(parts: Option<UrlPartsView>) -> Option<Seq<char>> {
    match parts {
        Some(p) => p.host,
        None => None,
    }
}

/// The host of `url`, if it is an absolute URL with a host.
pub fn extract_domain(url: &str) -> (host: Option<String>)
    ensures
        host matches Some(h) ==> host_of(parsed_url(url@)) == Some(h@),
        host is None ==> host_of(parsed_url(url@)) is None,
{
    match parse_url(url) {
        Some(parts) => parts.host,
        None => None,
    }
}

/// The host that discovery is held to: the host of the start page, or
/// `localhost` where the start page has none.
pub open spec fn base_host_from(parts: Option<UrlPartsView>) -> Seq<char> {
    match host_of(parts) {
        Some(h) => h,
        None => "localhost"@,
    }
}

/// The host that a discovery which starts at `start_url` is held to.
pub fn base_host(start_url: &str) -> (host: String)
    ensures
        host@ == base_host_from(parsed_url(start_url@)),
{
    match extract_domain(start_url) {
        Some(h) => h,
        None => "localhost".to_owned(),
    }
}

/// Scheme and host of a page, and the scheme alone.
#[derive(Debug)]
pub struct Origin {
    pub base_url: String,
    pub protocol: String,
}

/// The origin of a page: scheme, `://` and host, with `localhost` for a
/// URL without host, and `https://localhost` for what is no URL.
pub open spec fn origin_base(parts: Option<UrlPartsView>) -> Seq<char> {
    match parts {
        Some(p) => p.scheme + "://"@ + match p.host {
            Some(h) => h,
            None => "localhost"@,
        },
        None => "https://localhost"@,
    }
}

/// The scheme under which a page's assets are requested: the page's
/// own, or `https` for what is no URL.
pub open spec fn origin_protocol(parts: Option<UrlPartsView>) -> Seq<char> {
    match parts {
        Some(p) => p.scheme,
        None => "https"@,
    }
}

/// The origin that belongs to the parts of a parsed URL.
pub fn origin_from_parts(parts: &Option<UrlParts>) -> (o: Origin)
    ensures
        o.base_url@ == origin_base(
            match parts {
                Some(p) => Some(p@),
                None => None,
            },
        ),
        o.protocol@ == origin_protocol(
            match parts {
                Some(p) => Some(p@),
                None => None,
            },
        ),
{
    match parts {
        Some(p) => {
            let head = joined(p.scheme.as_str(), "://");
            let base_url = match &p.host {
                Some(h) => joined(head.as_str(), h.as_str()),
                None => joined(head.as_str(), "localhost"),
            };
            Origin { base_url, protocol: p.scheme.clone() }
        },
        None => Origin { base_url: "https://localhost".to_owned(), protocol: "https".to_owned() },
    }
}

/// The origin of the page at `url`.
pub fn origin_of(url: &str) -> (o: Origin)
    ensures
        o.base_url@ == origin_base(parsed_url(url@)),
        o.protocol@ == origin_protocol(parsed_url(url@)),
{
    let parts = parse_url(url);
    origin_from_parts(&parts)
}

/// The path that a request for `url` is shown under: the URL's path, or
/// `/` where it is empty or `url` is no URL.
pub open spec fn shown_path(parts: Option<UrlPartsView>) -> Seq<char> {
    match parts {
        Some(p) => if p.path.len() == 0 {
            "/"@
        } else {
            p.path
        },
        None => "/"@,
    }
}

/// The path that a request for `url` is shown under.
pub fn display_path(url: &str) -> (path: String)
    ensures
        path@ == shown_path(parsed_url(url@)),
{
    match parse_url(url) {
        Some(parts) => {
            if parts.path.as_str().is_empty() {
                "/".to_owned()
            } else {
                parts.path
            }
        },
        None => "/".to_owned(),
    }
}

/// A URL as it is compared with another: without `http://` and
/// `https://`, without slashes at its end, and, where what is left has
/// no dot, as a path below `abh.ai`.
pub open spec fn normalized(url: Seq<char>) -> Seq<char> {
    let bare = trim_end(without(without(url, "http://"@), "https://"@), '/');
    if !bare.contains('.') && bare.len() > 0 {
        if bare[0] == '/' {
            "abh.ai"@ + bare
        } else {
            "abh.ai/"@ + bare
        }
    } else {
        bare
    }
}

/// The form of `url` under which it is compared with another.
pub fn normalize_url(url: &str) -> (out: String)
    ensures
        out@ == normalized(url@),
{
    let u = chars_of(url);
    let http = chars_of("http://");
    let https = chars_of("https://");
    let a = remove_all(&u, &http);
    let b = remove_all(&a, &https);
    let bare = trim_end_char(&b, '/');
    let tail = string_of(&bare);
    if !contains_char(&bare, '.') && bare.len() > 0 {
        if bare[0] == '/' {
            joined("abh.ai", tail.as_str())
        } else {
            joined("abh.ai/", tail.as_str())
        }
    } else {
        tail
    }
}

/// The URL that a reference found on a page stands for: itself where it
/// has a scheme, under `https:` where it starts with two slashes, and
/// else below the page's origin.
pub open spec fn resolved(reference: Seq<char>, base_url: Seq<char>) -> Seq<char> {
    if has_prefix(reference, "http://"@) || has_prefix(reference, "https://"@) {
        reference
    } else if has_prefix(reference, "//"@) {
        "https:"@ + reference
    } else if has_prefix(reference, "/"@) {
        base_url + reference
    } else {
        base_url + "/"@ + reference
    }
}

/// The URL that `asset_path`, found on a page of origin `base_url`,
/// stands for.
pub fn build_asset_url(asset_path: &str, base_url: &str) -> (out: String)
    ensures
        out@ == resolved(asset_path@, base_url@),
{
    let a = chars_of(asset_path);
    if starts_with(&a, &chars_of("http://")) || starts_with(&a, &chars_of("https://")) {
        asset_path.to_owned()
    } else if starts_with(&a, &chars_of("//")) {
        joined("https:", asset_path)
    } else if starts_with(&a, &chars_of("/")) {
        joined(base_url, asset_path)
    } else {
        let head = joined(base_url, "/");
        joined(head.as_str(), asset_path)
    }
}

/// An asset's URL under the scheme of the page that asked for it: an
/// `http://` asset of an `https` page becomes `https://`, and the other
/// way round. Anything else stays as it is.
pub open spec fn coerced(asset: Seq<char>, protocol: Seq<char>) -> Seq<char> {
    if has_prefix(asset, "http://"@) && protocol == "https"@ {
        "https://"@ + asset.skip("http://"@.len() as int)
    } else if has_prefix(asset, "https://"@) && protocol == "http"@ {
        "http://"@ + asset.skip("https://"@.len() as int)
    } else {
        asset
    }
}

/// The URL of `asset` under the scheme `protocol` of its page.
pub fn coerce_scheme(asset: &str, protocol: &str) -> (out: String)
    ensures
        out@ == coerced(asset@, protocol@),
{
    let a = chars_of(asset);
    let http = chars_of("http://");
    let https = chars_of("https://");
    if starts_with(&a, &http) && str_eq(protocol, "https") {
        let rest = string_from(&a, http.len());
        joined("https://", rest.as_str())
    } else if starts_with(&a, &https) && str_eq(protocol, "http") {
        let rest = string_from(&a, https.len());
        joined("http://", rest.as_str())
    } else {
        asset.to_owned()
    }
}

/// An asset that was coerced to the scheme of an `https` page does not
/// start with `http://`, and one coerced to the scheme of an `http` page
/// does not start with `https://`.
pub proof fn lemma_coerced_follows_page(asset: Seq<char>, protocol: Seq<char>)
    ensures
        protocol == "https"@ ==> !has_prefix(coerced(asset, protocol), "http://"@),
        protocol == "http"@ ==> !has_prefix(coerced(asset, protocol), "https://"@),
{
    reveal_strlit("http://");
    reveal_strlit("https://");
    reveal_strlit("http");
    reveal_strlit("https");
    let http = "http://"@;
    let https = "https://"@;
    if protocol == "https"@ {
        assert("https"@ != "http"@) by {
            assert("https"@.len() != "http"@.len());
        }
        if has_prefix(asset, http) {
            let c = coerced(asset, protocol);
            assert(c[4] == 's');
            if has_prefix(c, http) {
                assert(c.subrange(0, 7)[4] == http[4]);
            }
        }
    }
    if protocol == "http"@ {
        assert("https"@ != "http"@) by {
            assert("https"@.len() != "http"@.len());
        }
        if has_prefix(asset, https) {
            let c = coerced(asset, protocol);
            assert(c[4] == ':');
            if has_prefix(c, https) {
                assert(c.subrange(0, 8)[4] == https[4]);
            }
        }
    }
}

/// Two URLs that name the same page, whatever the scheme.
pub open spec fn same_page(a: Seq<char>, b: Seq<char>) -> bool {
    normalized(a) == normalized(b)
}

/// The requests made for the assets of a page: each asset but the page
/// itself, in order, under the page's scheme.
pub open spec fn asset_plan(assets: Seq<Seq<char>>, main_url: Seq<char>, protocol: Seq<char>) -> Seq<
    Seq<char>,
>
    decreases assets.len(),
{
    if assets.len() == 0 {
        Seq::empty()
    } else {
        let earlier = asset_plan(assets.drop_last(), main_url, protocol);
        if same_page(assets.last(), main_url) {
            earlier
        } else {
            earlier.push(coerced(assets.last(), protocol))
        }
    }
}

/// The URLs to request for the assets found on the page `main_url`,
/// which was requested under the scheme `protocol`.
pub fn asset_requests(assets: &Vec<String>, main_url: &str, protocol: &str) -> (out: Vec<String>)
    ensures
        texts(out@) == asset_plan(texts(assets@), main_url@, protocol@),
{
    let main = normalize_url(main_url);
    let mut out: Vec<String> = Vec::new();
    let mut i: usize = 0;
    assert(texts(out@) =~= Seq::<Seq<char>>::empty());
    while i < assets.len()
        invariant
            i <= assets.len(),
            main@ == normalized(main_url@),
            texts(out@) == asset_plan(texts(assets@).subrange(0, i as int), main_url@, protocol@),
        decreases assets.len() - i,
    {
        assert(texts(assets@).subrange(0, i + 1).drop_last() =~= texts(assets@).subrange(
            0,
            i as int,
        ));
        let this = normalize_url(assets[i].as_str());
        if !str_eq(this.as_str(), main.as_str()) {
            let ghost held = texts(out@);
            let url = coerce_scheme(assets[i].as_str(), protocol);
            out.push(url);
            assert(texts(out@) =~= held.push(coerced(assets@[i as int]@, protocol@)));
        }
        i += 1;
    }
    assert(texts(assets@).subrange(0, i as int) =~= texts(assets@));
    out
}

/// A link is kept when it is on the host that discovery is held to.
/// With no such host every link is kept.
pub open spec fn on_host(base: Option<Seq<char>>, link: Option<Seq<char>>) -> bool {
    match base {
        Some(b) => link == Some(b),
        None => true,
    }
}

/// The links of `links` whose host is `base`, in order.
pub open spec fn links_on_host(links: Seq<Seq<char>>, base: Option<Seq<char>>) -> Seq<Seq<char>>
    decreases links.len(),
{
    if links.len() == 0 {
        Seq::empty()
    } else {
        let earlier = links_on_host(links.drop_last(), base);
        if on_host(base, host_of(parsed_url(links.last()))) {
            earlier.push(links.last())
        } else {
            earlier
        }
    }
}

/// True when a link of host `link` is kept by a discovery held to the
/// host `base`.
pub fn is_on_host(base: &Option<String>, link: &Option<String>) -> (b: bool)
    ensures
        b == on_host(
            match base {
                Some(h) => Some(h@),
                None => None,
            },
            match link {
                Some(h) => Some(h@),
                None => None,
            },
        ),
{
    match base {
        None => true,
        Some(b) => match link {
            Some(l) => str_eq(l.as_str(), b.as_str()),
            None => false,
        },
    }
}

/// The links of `links` that are on the host `base_host`, in order. The
/// hosts are compared as the URL parser gives them, character by
/// character.
pub fn same_host_links(links: &Vec<String>, base_host: &str) -> (out: Vec<String>)
    ensures
        texts(out@) == links_on_host(texts(links@), Some(base_host@)),
{
    let base = Some(base_host.to_owned());
    let mut out: Vec<String> = Vec::new();
    let mut i: usize = 0;
    assert(texts(out@) =~= Seq::<Seq<char>>::empty());
    while i < links.len()
        invariant
            i <= links.len(),
            base matches Some(h) && h@ == base_host@,
            texts(out@) == links_on_host(texts(links@).subrange(0, i as int), Some(base_host@)),
        decreases links.len() - i,
    {
        assert(texts(links@).subrange(0, i + 1).drop_last() =~= texts(links@).subrange(
            0,
            i as int,
        ));
        let host = extract_domain(links[i].as_str());
        if is_on_host(&base, &host) {
            let ghost held = texts(out@);
            out.push(links[i].clone());
            assert(texts(out@) =~= held.push(links@[i as int]@));
        }
        i += 1;
    }
    assert(texts(links@).subrange(0, i as int) =~= texts(links@));
    out
}

} // verus!
