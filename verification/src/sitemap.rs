//! Finding the pages of a site through its sitemaps: where the first
//! sitemap is looked for, and the worklist that walks from sitemap
//! indexes to the sitemaps that list pages.

use crate::text::{chars_of, joined, sort_dedup, strictly_sorted, string_of, texts};
use std::collections::VecDeque;
use vstd::prelude::*;

verus! {

/// One page entry of a sitemap.
#[derive(Debug)]
pub struct Urlc {
    pub loc: String,
    pub lastmod: String,
    pub changefreq: String,
    pub priority: String,
}

/// The page entries of one sitemap.
#[derive(Debug)]
pub struct UrlSet {
    pub url: Vec<Urlc>,
}

/// The date taken for an entry that gives none.
pub fn default_lastmod() -> (s: String)
    ensures
        s@ == "2021-12-28T08:37Z"@,
{
    "2021-12-28T08:37Z".to_owned()
}

/// The priority taken for an entry that gives none.
pub fn default_priority() -> (s: String)
    ensures
        s@ == "0.5"@,
{
    "0.5".to_owned()
}

/// The change frequency taken for an entry that gives none.
pub fn default_changefreq() -> (s: String)
    ensures
        s@ == "daily"@,
{
    "daily".to_owned()
}

/// The text of a field that may be absent.
pub open spec fn text_or(field: Option<String>, default: Seq<char>) -> Seq<char> {
    match field {
        Some(s) => s@,
        None => default,
    }
}

impl Urlc {
    /// The entry for the page at `loc`, with the defaults in place of
    /// the fields that the sitemap left out.
    pub fn new(
        loc: String,
        lastmod: Option<String>,
        changefreq: Option<String>,
        priority: Option<String>,
    ) -> (entry: Urlc)
        ensures
            entry.loc@ == loc@,
            entry.lastmod@ == text_or(lastmod, "2021-12-28T08:37Z"@),
            entry.changefreq@ == text_or(changefreq, "daily"@),
            entry.priority@ == text_or(priority, "0.5"@),
    {
        Urlc {
            loc,
            lastmod: match lastmod {
                Some(s) => s,
                None => default_lastmod(),
            },
            changefreq: match changefreq {
                Some(s) => s,
                None => default_changefreq(),
            },
            priority: match priority {
                Some(s) => s,
                None => default_priority(),
            },
        }
    }
}

/// The locations of a list of entries, in order.
pub open spec fn locations_of(entries: Seq<Urlc>) -> Seq<Seq<char>> {
    entries.map_values(|e: Urlc| e.loc@)
}

impl UrlSet {
    /// The locations of the pages that the sitemap lists, in order.
    pub fn locations(&self) -> (out: Vec<String>)
        ensures
            texts(out@) == locations_of(self.url@),
    {
        let mut out: Vec<String> = Vec::new();
        let mut i: usize = 0;
        while i < self.url.len()
            invariant
                i <= self.url.len(),
                out.len() == i,
                forall|j: int| 0 <= j < i ==> (#[trigger] out@[j])@ == self.url@[j].loc@,
            decreases self.url.len() - i,
        {
            out.push(self.url[i].loc.clone());
            i += 1;
        }
        assert(texts(out@) =~= locations_of(self.url@));
        out
    }
}

/// Where the crawler rules of the site at `base_url` are looked for.
pub fn robots_url(base_url: &str) -> (url: String)
    ensures
        url@ == base_url@ + "/robots.txt"@,
{
    joined(base_url, "/robots.txt")
}

/// Where the sitemap of the site at `base_url` is looked for when its
/// crawler rules name none.
pub fn default_sitemap_url(base_url: &str) -> (url: String)
    ensures
        url@ == base_url@ + "/sitemap.xml"@,
{
    joined(base_url, "/sitemap.xml")
}

/// True for the characters that count as white space.
pub open spec fn is_space(c: char) -> bool {
    let n = c as u32;
    ||| 9 <= n <= 13
    ||| n == 32
    ||| n == 0x85
    ||| n == 0xA0
    ||| n == 0x1680
    ||| 0x2000 <= n <= 0x200A
    ||| n == 0x2028
    ||| n == 0x2029
    ||| n == 0x202F
    ||| n == 0x205F
    ||| n == 0x3000
}

/// True when `c` counts as white space.
pub fn is_space_char(c: char) -> (b: bool)
    ensures
        b == is_space(c),
{
    let n = c as u32;
    (9 <= n && n <= 13) || n == 32 || n == 0x85 || n == 0xA0 || n == 0x1680 || (0x2000 <= n && n
        <= 0x200A) || n == 0x2028 || n == 0x2029 || n == 0x202F || n == 0x205F || n == 0x3000
}

/// The number of white-space characters at the start of `s`.
pub open spec fn leading_spaces(s: Seq<char>) -> nat
    decreases s.len(),
{
    if s.len() > 0 && is_space(s[0]) {
        1 + leading_spaces(s.skip(1))
    } else {
        0
    }
}

/// The number of white-space characters at the end of `s`.
pub open spec fn trailing_spaces(s: Seq<char>) -> nat
    decreases s.len(),
{
    if s.len() > 0 && is_space(s.last()) {
        1 + trailing_spaces(s.drop_last())
    } else {
        0
    }
}

/// `s` without the white space at its start and at its end.
pub open spec fn trimmed(s: Seq<char>) -> Seq<char> {
    let a = leading_spaces(s) as int;
    let rest = s.skip(a);
    rest.subrange(0, rest.len() - trailing_spaces(rest))
}

/// The bounds of `s[from..to]` without the white space at its start and
/// at its end.
fn trim_bounds(s: &Vec<char>, from: usize, to: usize) -> (r: (usize, usize))
    requires
        from <= to <= s.len(),
    ensures
        from <= r.0 <= r.1 <= to,
        s@.subrange(r.0 as int, r.1 as int) == trimmed(s@.subrange(from as int, to as int)),
{
    let ghost whole = s@.subrange(from as int, to as int);
    let mut a: usize = from;
    assert(whole.skip(0) =~= whole);
    while a < to && is_space_char(s[a])
        invariant
            from <= a <= to <= s.len(),
            whole == s@.subrange(from as int, to as int),
            leading_spaces(whole) == (a - from) + leading_spaces(whole.skip(a - from)),
        decreases to - a,
    {
        assert(whole.skip(a - from)[0] == s@[a as int]);
        assert(whole.skip(a - from).skip(1) =~= whole.skip(a + 1 - from));
        a += 1;
    }
    proof {
        if a < to {
            assert(whole.skip(a - from)[0] == s@[a as int]);
        }
    }
    let ghost rest = whole.skip(a - from);
    assert(rest =~= s@.subrange(a as int, to as int));
    let mut b: usize = to;
    assert(rest.subrange(0, rest.len() as int) =~= rest);
    while b > a && is_space_char(s[b - 1])
        invariant
            a <= b <= to <= s.len(),
            rest == s@.subrange(a as int, to as int),
            trailing_spaces(rest) == (to - b) + trailing_spaces(rest.subrange(0, b - a)),
        decreases b,
    {
        assert(rest.subrange(0, b - a).last() == s@[b - 1]);
        assert(rest.subrange(0, b - a).drop_last() =~= rest.subrange(0, b - 1 - a));
        b -= 1;
    }
    proof {
        if b > a {
            assert(rest.subrange(0, b - a).last() == s@[b - 1]);
        }
        assert(rest.subrange(0, rest.len() - trailing_spaces(rest)) =~= s@.subrange(
            a as int,
            b as int,
        ));
    }
    (a, b)
}

/// `c` is the letter `lower`, in either case, or the character `lower`
/// itself.
pub open spec fn is_letter(c: char, lower: char) -> bool {
    c == lower || (65 <= c as u32 <= 90 && c as u32 + 32 == lower as u32)
}

/// `s` begins with the word `word`, whatever the case of its letters.
pub open spec fn begins_with_word(s: Seq<char>, word: Seq<char>) -> bool {
    word.len() <= s.len() && forall|i: int| 0 <= i < word.len() ==> is_letter(s[i], word[i])
}

/// The sitemap that a line of crawler rules names: what follows
/// `Sitemap:`, in any case, without the white space around it. A line
/// that names nothing after the colon names no sitemap.
pub open spec fn directive_of(line: Seq<char>) -> Option<Seq<char>> {
    let t = trimmed(line);
    if begins_with_word(t, "sitemap:"@) {
        let value = trimmed(t.skip("sitemap:"@.len() as int));
        if value.len() > 0 {
            Some(value)
        } else {
            None
        }
    } else {
        None
    }
}

/// The length of the first line of `s`.
pub open spec fn line_length(s: Seq<char>) -> nat
    decreases s.len(),
{
    if s.len() == 0 || s[0] == '\n' {
        0
    } else {
        1 + line_length(s.skip(1))
    }
}

/// The sitemap that crawler rules name: that of their first line that
/// names one.
pub open spec fn directive_in(content: Seq<char>) -> Option<Seq<char>>
    decreases content.len(),
{
    let n = line_length(content) as int;
    if n > content.len() {
        None
    } else {
        match directive_of(content.subrange(0, n)) {
            Some(v) => Some(v),
            None => if n >= content.len() {
                None
            } else {
                directive_in(content.skip(n + 1))
            },
        }
    }
}

/// The sitemap that the line `s[from..to]` names, if it names one.
fn line_directive(s: &Vec<char>, from: usize, to: usize) -> (r: Option<String>)
    requires
        from <= to <= s.len(),
    ensures
        r matches Some(v) ==> directive_of(s@.subrange(from as int, to as int)) == Some(v@),
        r is None ==> directive_of(s@.subrange(from as int, to as int)) is None,
{
    let word = chars_of("sitemap:");
    let (a, b) = trim_bounds(s, from, to);
    let ghost t = s@.subrange(a as int, b as int);
    if b - a < word.len() {
        return None;
    }
    let mut i: usize = 0;
    while i < word.len()
        invariant
            i <= word.len() <= b - a,
            a <= b <= s.len(),
            t == s@.subrange(a as int, b as int),
            t == trimmed(s@.subrange(from as int, to as int)),
            word@ == "sitemap:"@,
            forall|j: int| 0 <= j < i ==> is_letter(t[j], word@[j]),
        decreases word.len() - i,
    {
        let c = s[a + i];
        let w = word[i];
        assert(t[i as int] == c);
        let n = c as u32;
        if !(c == w || (65 <= n && n <= 90 && n + 32 == w as u32)) {
            assert(!is_letter(t[i as int], "sitemap:"@[i as int]));
            return None;
        }
        i += 1;
    }
    let (va, vb) = trim_bounds(s, a + word.len(), b);
    assert(t.skip(word.len() as int) =~= s@.subrange(a + word.len(), b as int));
    if va == vb {
        return None;
    }
    let mut out: Vec<char> = Vec::new();
    let mut k: usize = va;
    while k < vb
        invariant
            va <= k <= vb <= s.len(),
            out@ == s@.subrange(va as int, k as int),
        decreases vb - k,
    {
        out.push(s[k]);
        assert(s@.subrange(va as int, k + 1) =~= s@.subrange(va as int, k as int).push(
            s@[k as int],
        ));
        k += 1;
    }
    Some(string_of(&out))
}

/// The sitemap that the crawler rules `content` name: what follows
/// `Sitemap:` on the first line that names one.
pub fn sitemap_directive(content: &str) -> (r: Option<String>)
    ensures
        r matches Some(v) ==> directive_in(content@) == Some(v@),
        r is None ==> directive_in(content@) is None,
{
    let s = chars_of(content);
    let mut start: usize = 0;
    assert(s@.skip(0) =~= s@);
    loop
        invariant
            start <= s.len(),
            s@ == content@,
            directive_in(s@.skip(start as int)) == directive_in(s@),
        decreases s.len() - start,
    {
        let ghost rest = s@.skip(start as int);
        let mut end: usize = start;
        assert(rest.skip(0) =~= rest);
        while end < s.len() && s[end] != '\n'
            invariant
                start <= end <= s.len(),
                rest == s@.skip(start as int),
                line_length(rest) == (end - start) + line_length(rest.skip(end - start)),
            decreases s.len() - end,
        {
            assert(rest.skip(end - start)[0] == s@[end as int]);
            assert(rest.skip(end - start).skip(1) =~= rest.skip(end + 1 - start));
            end += 1;
        }
        proof {
            if end < s.len() {
                assert(rest.skip(end - start)[0] == s@[end as int]);
            }
            assert(line_length(rest) == end - start);
            assert(rest.subrange(0, end - start) =~= s@.subrange(start as int, end as int));
            if end < s.len() {
                assert(rest.skip(end - start + 1) =~= s@.skip(end + 1));
            }
        }
        match line_directive(&s, start, end) {
            Some(v) => {
                return Some(v);
            },
            None => {},
        }
        if end >= s.len() {
            return None;
        }
        start = end + 1;
    }
}

/// What came of a request for a document.
#[derive(Debug)]
pub enum Fetched {
    /// The request could not be made or got no answer.
    Failed,
    /// The answer, with its status code and, if it could be read, its
    /// body.
    Response { status: u16, body: Option<String> },
}

/// The body of an answer with status 200, if it could be read.
pub open spec fn accepted_body(fetched: Fetched) -> Option<Seq<char>> {
    match fetched {
        Fetched::Response { status, body: Some(text) } => if status == 200 {
            Some(text@)
        } else {
            None
        },
        _ => None,
    }
}

/// The first sitemap to look at: the one that the crawler rules name,
/// and `/sitemap.xml` below the origin where they could not be had, were
/// not answered with status 200 or name none.
pub open spec fn first_sitemap(base_url: Seq<char>, robots: Fetched) -> Seq<char> {
    match accepted_body(robots) {
        Some(content) => match directive_in(content) {
            Some(url) => url,
            None => base_url + "/sitemap.xml"@,
        },
        None => base_url + "/sitemap.xml"@,
    }
}

/// The first sitemap of the site at `base_url`, given what came of the
/// request for its crawler rules.
pub fn sitemap_url_from_robots(base_url: &str, robots: &Fetched) -> (url: String)
    ensures
        url@ == first_sitemap(base_url@, *robots),
{
    match robots {
        Fetched::Response { status, body: Some(text) } => {
            if *status == 200 {
                match sitemap_directive(text.as_str()) {
                    Some(url) => url,
                    None => default_sitemap_url(base_url),
                }
            } else {
                default_sitemap_url(base_url)
            }
        },
        _ => default_sitemap_url(base_url),
    }
}

/// What a candidate sitemap turned out to hold.
#[derive(Debug)]
pub enum SitemapDocument {
    /// A sitemap index: the locations of further sitemaps.
    Index(Vec<String>),
    /// A sitemap: the locations of pages.
    Pages(Vec<String>),
    /// Neither.
    Unreadable,
}

/// What a candidate sitemap turned out to hold, as mathematical values.
pub enum DocumentView {
    Index(Seq<Seq<char>>),
    Pages(Seq<Seq<char>>),
    Unreadable,
}

impl View for SitemapDocument {
    type V = DocumentView;

    open spec fn view(&self) -> DocumentView {
        match self {
            SitemapDocument::Index(v) => DocumentView::Index(texts(v@)),
            SitemapDocument::Pages(v) => DocumentView::Pages(texts(v@)),
            SitemapDocument::Unreadable => DocumentView::Unreadable,
        }
    }
}

impl SitemapDocument {
    /// What a document holds, given what reading it as a sitemap index
    /// and as a sitemap gave. A document that reads as an index is one.
    pub fn classify(index: Option<Vec<String>>, pages: Option<Vec<String>>) -> (doc:
        SitemapDocument)
        ensures
            doc@ == match (index, pages) {
                (Some(children), _) => DocumentView::Index(texts(children@)),
                (None, Some(urls)) => DocumentView::Pages(texts(urls@)),
                (None, None) => DocumentView::Unreadable,
            },
    {
        match index {
            Some(children) => SitemapDocument::Index(children),
            None => match pages {
                Some(urls) => SitemapDocument::Pages(urls),
                None => SitemapDocument::Unreadable,
            },
        }
    }
}

/// Why the sitemaps of a site gave no pages.
#[derive(Clone, Copy, Debug, PartialEq, Eq, Structural)]
pub enum SitemapError {
    /// No candidate was answered with status 200.
    NoSitemapFound,
    /// Sitemaps were found, and they list no page.
    NoUrls,
}

impl SitemapError {
    /// The words that tell the user what was wrong.
    pub fn message(&self) -> (text: &'static str)
        ensures
            text@ == match self {
                SitemapError::NoSitemapFound => "No valid sitemaps found"@,
                SitemapError::NoUrls => "No URLs found in any sitemap"@,
            },
    {
        match self {
            SitemapError::NoSitemapFound => "No valid sitemaps found",
            SitemapError::NoUrls => "No URLs found in any sitemap",
        }
    }
}

/// The state of a sitemap resolution, as mathematical values.
pub struct ResolverView {
    /// The candidate sitemaps still to look at, first in first out.
    pub pending: Seq<Seq<char>>,
    /// The page locations collected so far, in the order found.
    pub pages: Seq<Seq<char>>,
    /// Whether any candidate was answered with status 200.
    pub any_found: bool,
}

impl ResolverView {
    /// The resolution that starts at the candidate `first`.
    pub open spec fn start(first: Seq<char>) -> ResolverView {
        ResolverView { pending: seq![first], pages: Seq::empty(), any_found: false }
    }

    /// The candidate that is looked at next, if one is left.
    pub open spec fn next(self) -> Option<Seq<char>> {
        if self.pending.len() > 0 {
            Some(self.pending[0])
        } else {
            None
        }
    }

    /// The resolution after the next candidate was taken.
    pub open spec fn after_next(self) -> ResolverView {
        if self.pending.len() > 0 {
            ResolverView { pending: self.pending.skip(1), ..self }
        } else {
            self
        }
    }

    /// The resolution after a candidate was answered with `status` and
    /// turned out to hold `doc`. Only an answer with status 200 counts:
    /// the sitemaps of an index join the candidates, the pages of a
    /// sitemap join the pages, and an unreadable document is dropped.
    pub open spec fn after_answer(self, status: u16, doc: DocumentView) -> ResolverView {
        if status != 200 {
            self
        } else {
            match doc {
                DocumentView::Index(children) => ResolverView {
                    pending: self.pending + children,
                    any_found: true,
                    ..self
                },
                DocumentView::Pages(urls) => ResolverView {
                    pages: self.pages + urls,
                    any_found: true,
                    ..self
                },
                DocumentView::Unreadable => ResolverView { any_found: true, ..self },
            }
        }
    }
}

/// The worklist that resolves the sitemaps of a site.
pub struct SitemapResolver {
    pending: VecDeque<String>,
    pages: Vec<String>,
    any_found: bool,
}

impl View for SitemapResolver {
    type V = ResolverView;

    closed spec fn view(&self) -> ResolverView {
        ResolverView {
            pending: texts(self.pending@),
            pages: texts(self.pages@),
            any_found: self.any_found,
        }
    }
}

/// Adds clones of the strings of `more` to the end of `list`.
fn extend_with(list: &mut Vec<String>, more: &Vec<String>)
    ensures
        texts(final(list)@) == texts(old(list)@) + texts(more@),
{
    let ghost start = texts(list@);
    let mut i: usize = 0;
    assert(texts(list@) =~= start + texts(more@).subrange(0, 0));
    while i < more.len()
        invariant
            i <= more.len(),
            texts(list@) == start + texts(more@).subrange(0, i as int),
        decreases more.len() - i,
    {
        let ghost held = texts(list@);
        list.push(more[i].clone());
        assert(texts(list@) =~= held.push(more@[i as int]@));
        assert(held.push(more@[i as int]@) =~= start + texts(more@).subrange(0, i + 1));
        i += 1;
    }
    assert(texts(more@).subrange(0, i as int) =~= texts(more@));
}

impl SitemapResolver {
    /// The resolution that starts at the candidate `first_sitemap`.
    pub fn new(first_sitemap: String) -> (r: SitemapResolver)
        ensures
            r@ == ResolverView::start(first_sitemap@),
    {
        let mut pending: VecDeque<String> = VecDeque::new();
        pending.push_back(first_sitemap);
        let r = SitemapResolver { pending, pages: Vec::new(), any_found: false };
        assert(r@.pending =~= seq![first_sitemap@]);
        assert(r@.pages =~= Seq::empty());
        r
    }

    /// Takes the candidate to look at next; none when the resolution is
    /// over.
    pub fn next_candidate(&mut self) -> (url: Option<String>)
        ensures
            match url {
                Some(u) => old(self)@.next() == Some(u@),
                None => old(self)@.next() is None,
            },
            final(self)@ == old(self)@.after_next(),
    {
        let ghost before = self@;
        let url = self.pending.pop_front();
        proof {
            if url is Some {
                assert(texts(self.pending@) =~= before.pending.skip(1));
            }
        }
        url
    }

    /// Takes in what came of the request for a candidate: nothing for a
    /// request that failed or was not answered with status 200, else
    /// what the document holds.
    pub fn record(&mut self, status: u16, document: &SitemapDocument)
        ensures
            final(self)@ == old(self)@.after_answer(status, document@),
    {
        if status != 200 {
            return ;
        }
        self.any_found = true;
        match document {
            SitemapDocument::Index(children) => {
                let ghost before = texts(self.pending@);
                let mut i: usize = 0;
                assert(texts(self.pending@) =~= before + texts(children@).subrange(0, 0));
                while i < children.len()
                    invariant
                        i <= children.len(),
                        self.any_found,
                        self.pages == old(self).pages,
                        texts(self.pending@) == before + texts(children@).subrange(0, i as int),
                    decreases children.len() - i,
                {
                    let ghost held = texts(self.pending@);
                    self.pending.push_back(children[i].clone());
                    assert(texts(self.pending@) =~= held.push(children@[i as int]@));
                    assert(held.push(children@[i as int]@) =~= before + texts(
                        children@,
                    ).subrange(0, i + 1));
                    i += 1;
                }
                assert(texts(children@).subrange(0, i as int) =~= texts(children@));
            },
            SitemapDocument::Pages(urls) => {
                extend_with(&mut self.pages, urls);
            },
            SitemapDocument::Unreadable => {},
        }
    }

    /// True when a candidate is left to look at.
    pub fn has_pending(&self) -> (b: bool)
        ensures
            b == (self@.pending.len() > 0),
    {
        self.pending.len() > 0
    }

    /// The pages that the sitemaps list, each once, in the order of
    /// strings. Fails when no candidate was answered with status 200, and
    /// when those that were list no page.
    pub fn finish(&self) -> (r: Result<Vec<String>, SitemapError>)
        ensures
            !self@.any_found <==> r == Err::<Vec<String>, SitemapError>(
                SitemapError::NoSitemapFound,
            ),
            self@.any_found && self@.pages.len() == 0 <==> r == Err::<Vec<String>, SitemapError>(
                SitemapError::NoUrls,
            ),
            r matches Ok(urls) ==> strictly_sorted(texts(urls@)) && texts(urls@).to_set()
                == self@.pages.to_set() && urls.len() > 0,
    {
        if !self.any_found {
            return Err(SitemapError::NoSitemapFound);
        }
        let urls = sort_dedup(&self.pages);
        if urls.len() == 0 {
            proof {
                if self@.pages.len() > 0 {
                    assert(self@.pages.to_set().contains(self@.pages[0]));
                    assert(texts(urls@).to_set().contains(self@.pages[0]));
                }
            }
            return Err(SitemapError::NoUrls);
        }
        proof {
            assert(texts(urls@).to_set().contains(texts(urls@)[0]));
            if self@.pages.len() == 0 {
                assert(self@.pages.to_set().contains(texts(urls@)[0]));
            }
        }
        Ok(urls)
    }
}

} // verus!
