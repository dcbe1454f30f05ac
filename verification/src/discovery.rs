//! Discovery as the workers carry it out together: a model of the
//! workers' moves on the shared frontier, and the proofs that whatever
//! the order of their moves no page is lost, that the run ends where
//! sleeping workers are left to sleep while others can move, and that at
//! its end the site has been discovered.

use crate::frontier::{
    lemma_links_on_host, lemma_with_links, lemma_with_members, FrontierView, StepView,
};
use crate::urls::{base_host_from, links_on_host, parsed_url};
use vstd::prelude::*;

verus! {

/// Where a worker stands.
pub enum Phase {
    /// About to ask the frontier what to do.
    Ready,
    /// Fetching the page it was handed.
    Fetching(Seq<char>),
    /// Sleeping after it found the queue empty.
    Sleeping,
    /// Done.
    Exited,
}

/// A site: for each page the links that are found on it. A page that
/// cannot be fetched holds none.
pub struct Site {
    pub links: spec_fn(Seq<char>) -> Seq<Seq<char>>,
}

/// The host that a discovery from `start_url` is held to.
pub open spec fn site_host(start_url: Seq<char>) -> Seq<char> {
    base_host_from(parsed_url(start_url))
}

/// The links of the page `u` that stay on the host `base`: those that
/// discovery follows.
pub open spec fn kept_links(site: Site, base: Seq<char>, u: Seq<char>) -> Seq<Seq<char>> {
    links_on_host((site.links)(u), Some(base))
}

/// What is counted of the workers.
pub enum Count {
    /// The workers that count as active: neither sleeping nor done.
    Active,
    /// The workers about to ask the frontier.
    Ready,
    /// The workers fetching a page.
    Fetching,
    /// The workers that are done.
    Exited,
    /// The moves that a worker may still make without work for it,
    /// before any worker is done: two for one that is awake, one for one
    /// that sleeps.
    Early,
    /// The same once a worker is done: one for a worker that is awake,
    /// two for one that sleeps.
    Late,
}

/// What the worker in phase `p` counts for.
pub open spec fn weigh(count: Count, p: Phase) -> nat {
    match count {
        Count::Active => if p is Ready || p is Fetching {
            1
        } else {
            0
        },
        Count::Ready => if p is Ready {
            1
        } else {
            0
        },
        Count::Fetching => if p is Fetching {
            1
        } else {
            0
        },
        Count::Exited => if p is Exited {
            1
        } else {
            0
        },
        Count::Early => match p {
            Phase::Ready => 2,
            Phase::Fetching(_) => 2,
            Phase::Sleeping => 1,
            Phase::Exited => 0,
        },
        Count::Late => match p {
            Phase::Ready => 1,
            Phase::Fetching(_) => 2,
            Phase::Sleeping => 2,
            Phase::Exited => 0,
        },
    }
}

/// The sum over the workers of what they count for.
pub open spec fn tally(phases: Seq<Phase>, count: Count) -> nat
    decreases phases.len(),
{
    if phases.len() == 0 {
        0
    } else {
        tally(phases.drop_last(), count) + weigh(count, phases.last())
    }
}

/// Changing one worker changes the sum by what that worker counts for.
pub proof fn lemma_tally_update(phases: Seq<Phase>, count: Count, w: int, p: Phase)
    requires
        0 <= w < phases.len(),
    ensures
        tally(phases.update(w, p), count) + weigh(count, phases[w]) == tally(phases, count) + weigh(
            count,
            p,
        ),
    decreases phases.len(),
{
    let after = phases.update(w, p);
    if w == phases.len() - 1 {
        assert(after.drop_last() =~= phases.drop_last());
    } else {
        lemma_tally_update(phases.drop_last(), count, w, p);
        assert(after.drop_last() =~= phases.drop_last().update(w, p));
    }
}

/// The sum is at least what two different workers count for.
pub proof fn lemma_tally_covers(phases: Seq<Phase>, count: Count, v: int, w: int)
    requires
        0 <= v < phases.len(),
        0 <= w < phases.len(),
    ensures
        tally(phases, count) >= weigh(count, phases[w]),
        v != w ==> tally(phases, count) >= weigh(count, phases[v]) + weigh(count, phases[w]),
    decreases phases.len(),
{
    let n = phases.len() - 1;
    if v < n && w < n {
        lemma_tally_covers(phases.drop_last(), count, v, w);
    } else if v < n {
        lemma_tally_covers(phases.drop_last(), count, v, v);
    } else if w < n {
        lemma_tally_covers(phases.drop_last(), count, w, w);
    }
}

/// No worker counts for more than two, so no sum is above twice the
/// number of workers; and the active workers are those that are ready
/// and those that fetch.
pub proof fn lemma_tally_bounds(phases: Seq<Phase>, count: Count)
    ensures
        tally(phases, count) <= 2 * phases.len(),
        tally(phases, Count::Active) == tally(phases, Count::Ready) + tally(
            phases,
            Count::Fetching,
        ),
        tally(phases, Count::Active) + tally(phases, Count::Exited) <= phases.len(),
    decreases phases.len(),
{
    if phases.len() > 0 {
        lemma_tally_bounds(phases.drop_last(), count);
    }
}

/// Where every worker is done, the count of those done is the number of
/// workers, and the other way round.
pub proof fn lemma_tally_all(phases: Seq<Phase>)
    ensures
        tally(phases, Count::Exited) == phases.len() <==> forall|w: int|
            0 <= w < phases.len() ==> #[trigger] phases[w] is Exited,
    decreases phases.len(),
{
    if phases.len() > 0 {
        let init = phases.drop_last();
        lemma_tally_all(init);
        lemma_tally_bounds(init, Count::Exited);
        if tally(phases, Count::Exited) == phases.len() {
            assert forall|w: int| 0 <= w < phases.len() implies #[trigger] phases[w] is Exited by {
                if w < init.len() {
                    assert(init[w] is Exited);
                }
            }
        }
        if forall|w: int| 0 <= w < phases.len() ==> #[trigger] phases[w] is Exited {
            assert forall|w: int| 0 <= w < init.len() implies #[trigger] init[w] is Exited by {
                assert(phases[w] is Exited);
            }
            assert(phases[phases.len() - 1] is Exited);
        }
    }
}

/// The workers and the frontier they share.
pub struct Crawl {
    pub frontier: FrontierView,
    pub phases: Seq<Phase>,
}

impl Crawl {
    /// A run at its start: the start page is queued and every worker is
    /// about to ask.
    pub open spec fn start(start_url: Seq<char>, workers: nat) -> Crawl {
        Crawl {
            frontier: FrontierView::start(start_url, workers),
            phases: Seq::new(workers, |i: int| Phase::Ready),
        }
    }

    /// The run after worker `w` has made its next move: a ready worker
    /// asks the frontier and does as it is told, a fetching worker
    /// reports the links found on its page, a sleeping worker wakes up.
    /// A worker that is done makes no move.
    pub open spec fn advance(self, w: int, site: Site) -> Crawl {
        if 0 <= w < self.phases.len() {
            match self.phases[w] {
                Phase::Ready => Crawl {
                    frontier: self.frontier.after_step(),
                    phases: self.phases.update(
                        w,
                        match self.frontier.step() {
                            StepView::Process(url) => Phase::Fetching(url),
                            StepView::Skip => Phase::Ready,
                            StepView::Wait => Phase::Sleeping,
                            StepView::Terminate => Phase::Exited,
                        },
                    ),
                },
                Phase::Fetching(url) => Crawl {
                    frontier: self.frontier.after_found((site.links)(url), Seq::empty()),
                    phases: self.phases.update(w, Phase::Ready),
                },
                Phase::Sleeping => Crawl {
                    frontier: self.frontier.after_wake(),
                    phases: self.phases.update(w, Phase::Ready),
                },
                Phase::Exited => self,
            }
        } else {
            self
        }
    }

    /// The run after the moves of the workers named by `schedule`, in
    /// that order.
    pub open spec fn run(self, schedule: Seq<int>, site: Site) -> Crawl
        decreases schedule.len(),
    {
        if schedule.len() == 0 {
            self
        } else {
            self.run(schedule.drop_last(), site).advance(schedule.last(), site)
        }
    }

    /// The number of workers that are done.
    pub open spec fn exited(self) -> nat {
        tally(self.phases, Count::Exited)
    }

    /// The number of workers that are fetching a page.
    pub open spec fn fetching(self) -> nat {
        tally(self.phases, Count::Fetching)
    }

    /// Every worker is done.
    pub open spec fn all_exited(self) -> bool {
        forall|w: int| 0 <= w < self.phases.len() ==> #[trigger] self.phases[w] is Exited
    }
}

/// `path` leads from page to page by links of the site that stay on
/// the host `base`.
pub open spec fn is_path(site: Site, base: Seq<char>, path: Seq<Seq<char>>) -> bool {
    forall|i: int|
        #![trigger path[i]]
        0 <= i < path.len() - 1 ==> kept_links(site, base, path[i]).contains(path[i + 1])
}

/// The page `to` is the page `from` or can be reached from it by links
/// of the site that stay on the host of `from`.
pub open spec fn reachable(site: Site, from: Seq<char>, to: Seq<char>) -> bool {
    exists|path: Seq<Seq<char>>|
        #[trigger] is_path(site, site_host(from), path) && path.len() >= 1 && path[0] == from
            && path.last() == to
}

/// The page `u` is the start page or was discovered.
pub open spec fn known(f: FrontierView, start_url: Seq<char>, u: Seq<char>) -> bool {
    u == start_url || f.discovered_urls.contains(u)
}

/// Some worker is fetching the page `u`.
pub open spec fn in_flight(phases: Seq<Phase>, u: Seq<char>) -> bool {
    exists|w: int| 0 <= w < phases.len() && #[trigger] phases[w] == Phase::Fetching(u)
}

/// Every page on the host `base` that the page `u` links to was
/// discovered.
pub open spec fn links_known(f: FrontierView, site: Site, base: Seq<char>, u: Seq<char>) -> bool {
    forall|k: int|
        0 <= k < kept_links(site, base, u).len() ==> f.discovered_urls.contains(
            #[trigger] kept_links(site, base, u)[k],
        )
}

impl Crawl {
    /// What holds of a run at every moment. The frontier counts as
    /// active the workers that are awake. What is queued or visited is
    /// the start page or was discovered, and what was discovered can be
    /// reached from the start page. No page is lost: the start page and
    /// every discovered page is queued or visited, and every visited
    /// page is being fetched or has had its links taken in. Once a
    /// worker is done nothing is queued and nothing is being fetched;
    /// before that some worker is awake.
    pub open spec fn consistent(self, start_url: Seq<char>, site: Site) -> bool {
        let f = self.frontier;
        &&& f.wf()
        &&& f.start_url == start_url
        &&& f.base_host == site_host(start_url)
        &&& self.phases.len() == f.workers
        &&& f.active_workers == tally(self.phases, Count::Active)
        &&& forall|i: int| 0 <= i < f.queue.len() ==> known(f, start_url, #[trigger] f.queue[i])
        &&& forall|i: int|
            0 <= i < f.visited.len() ==> known(f, start_url, #[trigger] f.visited[i])
        &&& forall|i: int|
            0 <= i < f.discovered_urls.len() ==> reachable(
                site,
                start_url,
                #[trigger] f.discovered_urls[i],
            )
        &&& forall|u: Seq<char>| #[trigger]
            known(f, start_url, u) ==> f.visited.contains(u) || f.queue.contains(u)
        &&& forall|i: int|
            0 <= i < f.visited.len() ==> in_flight(self.phases, #[trigger] f.visited[i])
                || links_known(f, site, site_host(start_url), f.visited[i])
        &&& forall|w: int|
            0 <= w < self.phases.len() ==> (#[trigger] self.phases[w] matches Phase::Fetching(u)
                ==> f.visited.contains(u))
        &&& self.exited() > 0 ==> f.queue.len() == 0 && self.fetching() == 0
        &&& self.exited() == 0 && self.phases.len() > 0 ==> f.active_workers >= 1
    }
}

/// The frontier `g` is the frontier `f` after the links `links` were
/// taken in: the visited pages and the worker count are the same, the
/// links have joined the discovered pages, and those that were new have
/// joined the queue.
pub open spec fn grown(f: FrontierView, g: FrontierView, links: Seq<Seq<char>>) -> bool {
    &&& g.wf()
    &&& g.visited == f.visited
    &&& g.active_workers == f.active_workers
    &&& g.workers == f.workers
    &&& g.base_host == f.base_host
    &&& g.start_url == f.start_url
    &&& g.discovered_assets == f.discovered_assets
    &&& g.discovered_urls.len() >= f.discovered_urls.len()
    &&& g.discovered_urls.subrange(0, f.discovered_urls.len() as int) == f.discovered_urls
    &&& g.queue.len() - f.queue.len() == g.discovered_urls.len() - f.discovered_urls.len()
    &&& forall|x: Seq<char>|
        #![trigger g.discovered_urls.contains(x)]
        #![trigger f.discovered_urls.contains(x)]
        #![trigger links.contains(x)]
        g.discovered_urls.contains(x) <==> f.discovered_urls.contains(x) || links.contains(x)
    &&& forall|x: Seq<char>|
        #![trigger g.queue.contains(x)]
        #![trigger f.queue.contains(x)]
        #![trigger links.contains(x)]
        g.queue.contains(x) <==> f.queue.contains(x) || (links.contains(x)
            && !f.discovered_urls.contains(x))
}

/// What a page's links do to the frontier.
pub proof fn lemma_page_effect(f: FrontierView, links: Seq<Seq<char>>)
    requires
        f.wf(),
    ensures
        grown(f, f.after_page(links, Seq::empty()), links),
{
    let g = f.after_page(links, Seq::empty());
    let h = f.with_links(links);
    lemma_with_links(f, links);
    lemma_with_members(f.discovered_urls, links);
    assert(g.discovered_assets == f.discovered_assets);
    let n = f.discovered_urls.len() as int;
    let fresh = h.discovered_urls.skip(n);
    assert(h.discovered_urls =~= f.discovered_urls + fresh) by {
        assert(h.discovered_urls.subrange(0, n) == f.discovered_urls);
    }
    assert(g.queue == f.queue + fresh);
    assert(g.discovered_urls == h.discovered_urls);
    assert forall|x: Seq<char>|
        #![trigger g.discovered_urls.contains(x)]
        #![trigger f.discovered_urls.contains(x)]
        #![trigger links.contains(x)]
        g.discovered_urls.contains(x) <==> f.discovered_urls.contains(x) || links.contains(
            x,
        ) by {
        assert(h.discovered_urls.to_set().contains(x) <==> f.discovered_urls.to_set().contains(x)
            || links.to_set().contains(x));
    }
    assert forall|x: Seq<char>|
        #![trigger g.queue.contains(x)]
        #![trigger f.queue.contains(x)]
        #![trigger links.contains(x)]
        g.queue.contains(x) <==> f.queue.contains(x) || (links.contains(x)
            && !f.discovered_urls.contains(x)) by {
        if g.queue.contains(x) && !f.queue.contains(x) {
            let i = choose|i: int| 0 <= i < g.queue.len() && g.queue[i] == x;
            if i >= f.queue.len() {
                let j = i - f.queue.len();
                assert(fresh[j] == x);
                assert(h.discovered_urls[n + j] == x);
                assert(g.discovered_urls.contains(x));
                if f.discovered_urls.contains(x) {
                    let k = choose|k: int| 0 <= k < n && f.discovered_urls[k] == x;
                    assert(h.discovered_urls[k] == x);
                    assert(false);
                }
                assert(links.contains(x));
            } else {
                assert(f.queue[i] == x);
                assert(false);
            }
        }
        if f.queue.contains(x) {
            let i = choose|i: int| 0 <= i < f.queue.len() && f.queue[i] == x;
            assert(g.queue[i] == x);
        }
        if links.contains(x) && !f.discovered_urls.contains(x) {
            assert(g.discovered_urls.contains(x));
            let k = choose|k: int| 0 <= k < h.discovered_urls.len() && h.discovered_urls[k] == x;
            if k < n {
                assert(f.discovered_urls[k] == x);
                assert(false);
            }
            assert(fresh[k - n] == x);
            assert(g.queue[f.queue.len() + (k - n)] == x);
        }
    }
}

/// A page that is being fetched stays so when a worker that does not
/// fetch it moves.
proof fn lemma_in_flight_stays(phases: Seq<Phase>, w: int, p: Phase, u: Seq<char>)
    requires
        0 <= w < phases.len(),
        phases[w] != Phase::Fetching(u),
        in_flight(phases, u),
    ensures
        in_flight(phases.update(w, p), u),
{
    let v = choose|v: int| 0 <= v < phases.len() && #[trigger] phases[v] == Phase::Fetching(u);
    assert(phases.update(w, p)[v] == Phase::Fetching(u));
}

/// What a page links to can be reached from wherever the page can.
proof fn lemma_reach_step(site: Site, start_url: Seq<char>, u: Seq<char>, k: int)
    requires
        u == start_url || reachable(site, start_url, u),
        0 <= k < kept_links(site, site_host(start_url), u).len(),
    ensures
        reachable(site, start_url, kept_links(site, site_host(start_url), u)[k]),
{
    let base = site_host(start_url);
    let v = kept_links(site, base, u)[k];
    if reachable(site, start_url, u) {
        let p = choose|p: Seq<Seq<char>>|
            #[trigger] is_path(site, base, p) && p.len() >= 1 && p[0] == start_url && p.last()
                == u;
        let q = p.push(v);
        assert forall|i: int| #![trigger q[i]] 0 <= i < q.len() - 1 implies kept_links(
            site,
            base,
            q[i],
        ).contains(q[i + 1]) by {
            if i < p.len() - 1 {
                assert(kept_links(site, base, p[i]).contains(p[i + 1]));
            }
        }
        assert(is_path(site, base, q));
    } else {
        let q = seq![start_url, v];
        assert(is_path(site, base, q));
    }
}

/// At its start a run is as it should be.
pub proof fn lemma_start_consistent(start_url: Seq<char>, workers: nat, site: Site)
    ensures
        Crawl::start(start_url, workers).consistent(start_url, site),
        Crawl::start(start_url, workers).exited() == 0,
        Crawl::start(start_url, workers).fetching() == 0,
        tally(Crawl::start(start_url, workers).phases, Count::Early) == 2 * workers,
    decreases workers,
{
    let c = Crawl::start(start_url, workers);
    if workers > 0 {
        let b = Crawl::start(start_url, (workers - 1) as nat);
        lemma_start_consistent(start_url, (workers - 1) as nat, site);
        assert(c.phases.drop_last() =~= b.phases);
    }
    assert(c.frontier.queue[0] == start_url);
    assert(c.frontier.discovered_urls[0] == start_url);
    assert(is_path(site, site_host(start_url), seq![start_url]));
    assert(reachable(site, start_url, start_url));
    assert forall|u: Seq<char>| #[trigger] known(c.frontier, start_url, u) implies c.frontier.queue.contains(u) by {
        if c.frontier.discovered_urls.contains(u) {
            let i = choose|i: int|
                0 <= i < c.frontier.discovered_urls.len() && c.frontier.discovered_urls[i] == u;
            assert(u == start_url);
        }
        assert(c.frontier.queue[0] == u);
    }
}

/// Whatever worker moves next, the run stays as it should be.
pub proof fn lemma_advance_consistent(c: Crawl, w: int, start_url: Seq<char>, site: Site)
    requires
        c.consistent(start_url, site),
    ensures
        c.advance(w, site).consistent(start_url, site),
{
    let f = c.frontier;
    let d = c.advance(w, site);
    let g = d.frontier;
    if 0 <= w < c.phases.len() {
        lemma_tally_bounds(c.phases, Count::Active);
        lemma_tally_covers(c.phases, Count::Active, w, w);
        lemma_tally_covers(c.phases, Count::Ready, w, w);
        lemma_tally_covers(c.phases, Count::Fetching, w, w);
        lemma_tally_update(c.phases, Count::Active, w, d.phases[w]);
        lemma_tally_update(c.phases, Count::Fetching, w, d.phases[w]);
        lemma_tally_update(c.phases, Count::Exited, w, d.phases[w]);
        lemma_tally_bounds(d.phases, Count::Active);
        match c.phases[w] {
            Phase::Exited => {},
            Phase::Sleeping => {
                assert(d.phases =~= c.phases.update(w, Phase::Ready));
                assert forall|u: Seq<char>| #[trigger] known(g, start_url, u) implies g.visited.contains(u)
                    || g.queue.contains(u) by {
                    assert(known(f, start_url, u));
                }
                assert forall|i: int| 0 <= i < g.visited.len() implies in_flight(
                    d.phases,
                    #[trigger] g.visited[i],
                ) || links_known(g, site, site_host(start_url), g.visited[i]) by {
                    if in_flight(c.phases, f.visited[i]) {
                        lemma_in_flight_stays(c.phases, w, Phase::Ready, f.visited[i]);
                    }
                }
            },
            Phase::Fetching(u) => {
                let links = kept_links(site, site_host(start_url), u);
                lemma_page_effect(f, links);
                assert(grown(f, g, links));
                assert(d.phases =~= c.phases.update(w, Phase::Ready));
                assert(f.visited.contains(u));
                let iu = choose|i: int| 0 <= i < f.visited.len() && f.visited[i] == u;
                assert(known(f, start_url, f.visited[iu]));
                assert forall|i: int| 0 <= i < g.queue.len() implies known(
                    g,
                    start_url,
                    #[trigger] g.queue[i],
                ) by {
                    let x = g.queue[i];
                    assert(g.queue.contains(x));
                    if f.queue.contains(x) {
                        let j = choose|j: int| 0 <= j < f.queue.len() && f.queue[j] == x;
                        assert(known(f, start_url, f.queue[j]));
                    }
                }
                assert forall|i: int| 0 <= i < g.visited.len() implies known(
                    g,
                    start_url,
                    #[trigger] g.visited[i],
                ) by {
                    assert(known(f, start_url, f.visited[i]));
                }
                assert forall|i: int| 0 <= i < g.discovered_urls.len() implies reachable(
                    site,
                    start_url,
                    #[trigger] g.discovered_urls[i],
                ) by {
                    let x = g.discovered_urls[i];
                    assert(g.discovered_urls.contains(x));
                    if f.discovered_urls.contains(x) {
                        let j = choose|j: int|
                            0 <= j < f.discovered_urls.len() && f.discovered_urls[j] == x;
                        assert(reachable(site, start_url, f.discovered_urls[j]));
                    } else {
                        let k = choose|k: int| 0 <= k < links.len() && links[k] == x;
                        if u != start_url {
                            let j = choose|j: int|
                                0 <= j < f.discovered_urls.len() && f.discovered_urls[j] == u;
                            assert(reachable(site, start_url, f.discovered_urls[j]));
                        }
                        lemma_reach_step(site, start_url, u, k);
                    }
                }
                assert forall|x: Seq<char>| #[trigger] known(g, start_url, x) implies g.visited.contains(x)
                    || g.queue.contains(x) by {
                    if known(f, start_url, x) {
                        if f.queue.contains(x) {
                            assert(g.queue.contains(x));
                        }
                    } else {
                        assert(g.discovered_urls.contains(x));
                        assert(links.contains(x));
                        assert(g.queue.contains(x));
                    }
                }
                assert forall|i: int| 0 <= i < g.visited.len() implies in_flight(
                    d.phases,
                    #[trigger] g.visited[i],
                ) || links_known(g, site, site_host(start_url), g.visited[i]) by {
                    let v = f.visited[i];
                    if v == u {
                        assert forall|k: int| 0 <= k < links.len() implies g.discovered_urls.contains(
                            #[trigger] links[k],
                        ) by {
                            assert(links.contains(links[k]));
                        }
                    } else if in_flight(c.phases, v) {
                        lemma_in_flight_stays(c.phases, w, Phase::Ready, v);
                    } else {
                        assert(links_known(f, site, site_host(start_url), v));
                        let own = kept_links(site, site_host(start_url), v);
                        assert forall|k: int| 0 <= k < own.len() implies g.discovered_urls.contains(
                            #[trigger] own[k],
                        ) by {
                            assert(f.discovered_urls.contains(
                                kept_links(site, site_host(start_url), v)[k],
                            ));
                        }
                    }
                }
            },
            Phase::Ready => {
                if f.queue.len() == 0 {
                    assert forall|i: int| 0 <= i < g.visited.len() implies in_flight(
                        d.phases,
                        #[trigger] g.visited[i],
                    ) || links_known(g, site, site_host(start_url), g.visited[i]) by {
                        if in_flight(c.phases, f.visited[i]) {
                            lemma_in_flight_stays(c.phases, w, d.phases[w], f.visited[i]);
                        }
                    }
                    assert forall|u: Seq<char>| #[trigger] known(g, start_url, u) implies g.visited.contains(u)
                        || g.queue.contains(u) by {
                        assert(known(f, start_url, u));
                    }
                } else {
                    let u = f.queue[0];
                    assert(known(f, start_url, f.queue[0]));
                    assert(c.exited() == 0);
                    assert forall|i: int| 0 <= i < g.queue.len() implies known(
                        g,
                        start_url,
                        #[trigger] g.queue[i],
                    ) by {
                        assert(known(f, start_url, f.queue[i + 1]));
                    }
                    assert forall|i: int| 0 <= i < g.visited.len() implies known(
                        g,
                        start_url,
                        #[trigger] g.visited[i],
                    ) by {
                        if i < f.visited.len() {
                            assert(known(f, start_url, f.visited[i]));
                        }
                    }
                    assert(g.visited.contains(u)) by {
                        if f.visited.contains(u) {
                        } else {
                            assert(g.visited[f.visited.len() as int] == u);
                        }
                    }
                    assert forall|x: Seq<char>| #[trigger] known(g, start_url, x) implies g.visited.contains(x)
                        || g.queue.contains(x) by {
                        assert(known(f, start_url, x));
                        if f.visited.contains(x) {
                            let j = choose|j: int| 0 <= j < f.visited.len() && f.visited[j] == x;
                            assert(g.visited[j] == x);
                        } else {
                            let j = choose|j: int| 0 <= j < f.queue.len() && f.queue[j] == x;
                            if j > 0 {
                                assert(g.queue[j - 1] == x);
                            }
                        }
                    }
                    assert forall|i: int| 0 <= i < g.visited.len() implies in_flight(
                        d.phases,
                        #[trigger] g.visited[i],
                    ) || links_known(g, site, site_host(start_url), g.visited[i]) by {
                        if i < f.visited.len() {
                            if in_flight(c.phases, f.visited[i]) {
                                lemma_in_flight_stays(c.phases, w, d.phases[w], f.visited[i]);
                            }
                        } else {
                            assert(d.phases[w] == Phase::Fetching(u));
                        }
                    }
                    assert forall|v: int| 0 <= v < d.phases.len() implies (
                    #[trigger] d.phases[v] matches Phase::Fetching(x) ==> g.visited.contains(x)) by {
                        if v != w {
                            if let Phase::Fetching(x) = c.phases[v] {
                                assert(f.visited.contains(x));
                                let j = choose|j: int|
                                    0 <= j < f.visited.len() && f.visited[j] == x;
                                assert(g.visited[j] == x);
                            }
                        }
                    }
                }
            },
        }
    }
}

/// Whatever the workers do and in whatever order, from its start on the
/// run stays as it should be.
pub proof fn lemma_run_consistent(
    start_url: Seq<char>,
    workers: nat,
    schedule: Seq<int>,
    site: Site,
)
    ensures
        Crawl::start(start_url, workers).run(schedule, site).consistent(start_url, site),
        Crawl::start(start_url, workers).run(schedule, site).phases.len() == workers,
    decreases schedule.len(),
{
    if schedule.len() == 0 {
        lemma_start_consistent(start_url, workers, site);
    } else {
        lemma_run_consistent(start_url, workers, schedule.drop_last(), site);
        lemma_advance_consistent(
            Crawl::start(start_url, workers).run(schedule.drop_last(), site),
            schedule.last(),
            start_url,
            site,
        );
    }
}

/// A sum above zero means that some worker counts.
pub proof fn lemma_tally_positive(phases: Seq<Phase>, count: Count) -> (w: int)
    requires
        tally(phases, count) > 0,
    ensures
        0 <= w < phases.len(),
        weigh(count, phases[w]) > 0,
    decreases phases.len(),
{
    if weigh(count, phases.last()) > 0 {
        phases.len() - 1
    } else {
        lemma_tally_positive(phases.drop_last(), count)
    }
}

/// Once a worker is done, the pages discovered are the start page and
/// those that can be reached from it by links.
pub proof fn lemma_discovery_complete(c: Crawl, start_url: Seq<char>, site: Site)
    requires
        c.consistent(start_url, site),
        c.exited() > 0,
    ensures
        c.frontier.queue.len() == 0,
        forall|v: Seq<char>|
            c.frontier.discovered_urls.contains(v) <==> #[trigger] reachable(site, start_url, v),
{
    let f = c.frontier;
    assert forall|v: Seq<char>|
        f.discovered_urls.contains(v) <==> #[trigger] reachable(site, start_url, v) by {
        if f.discovered_urls.contains(v) {
            let i = choose|i: int| 0 <= i < f.discovered_urls.len() && f.discovered_urls[i] == v;
            assert(reachable(site, start_url, f.discovered_urls[i]));
        }
        if reachable(site, start_url, v) {
            let p = choose|p: Seq<Seq<char>>|
                #[trigger] is_path(site, site_host(start_url), p) && p.len() >= 1 && p[0]
                    == start_url && p.last() == v;
            if p.len() == 1 {
                assert(f.discovered_urls[0] == v);
            } else {
                lemma_path_discovered(c, start_url, site, p, p.len() - 1);
            }
        }
    }
}

/// Once a worker is done, every page on a path from the start page was
/// discovered.
proof fn lemma_path_discovered(
    c: Crawl,
    start_url: Seq<char>,
    site: Site,
    path: Seq<Seq<char>>,
    i: int,
)
    requires
        c.consistent(start_url, site),
        c.exited() > 0,
        is_path(site, site_host(start_url), path),
        path.len() >= 2,
        path[0] == start_url,
        1 <= i < path.len(),
    ensures
        c.frontier.discovered_urls.contains(path[i]),
    decreases i,
{
    let f = c.frontier;
    let u = path[i - 1];
    if i > 1 {
        lemma_path_discovered(c, start_url, site, path, i - 1);
    }
    assert(known(f, start_url, u));
    assert(f.visited.contains(u));
    let j = choose|j: int| 0 <= j < f.visited.len() && f.visited[j] == u;
    assert(in_flight(c.phases, f.visited[j]) || links_known(f, site, site_host(start_url), f.visited[j]));
    if in_flight(c.phases, u) {
        let w = choose|w: int| 0 <= w < c.phases.len() && #[trigger] c.phases[w] == Phase::Fetching(u);
        lemma_tally_covers(c.phases, Count::Fetching, w, w);
    }
    let links = kept_links(site, site_host(start_url), u);
    assert(kept_links(site, site_host(start_url), path[i - 1]).contains(path[i]));
    let k = choose|k: int| 0 <= k < links.len() && links[k] == path[i];
    assert(f.discovered_urls.contains(kept_links(site, site_host(start_url), u)[k]));
}

/// The pages of `pages` that are not among `discovered`, each counted
/// as often as `pages` names it.
pub open spec fn missing(pages: Seq<Seq<char>>, discovered: Seq<Seq<char>>) -> nat
    decreases pages.len(),
{
    if pages.len() == 0 {
        0
    } else {
        missing(pages.drop_last(), discovered) + if discovered.contains(pages.last()) {
            0nat
        } else {
            1nat
        }
    }
}

/// No more pages are missing than there are.
pub proof fn lemma_missing_bound(pages: Seq<Seq<char>>, discovered: Seq<Seq<char>>)
    ensures
        missing(pages, discovered) <= pages.len(),
    decreases pages.len(),
{
    if pages.len() > 0 {
        lemma_missing_bound(pages.drop_last(), discovered);
    }
}

/// A page that is discovered is missing no longer.
proof fn lemma_missing_push(pages: Seq<Seq<char>>, discovered: Seq<Seq<char>>, x: Seq<char>)
    ensures
        missing(pages, discovered.push(x)) <= missing(pages, discovered),
        pages.contains(x) && !discovered.contains(x) ==> missing(pages, discovered.push(x)) + 1
            <= missing(pages, discovered),
    decreases pages.len(),
{
    if pages.len() > 0 {
        let init = pages.drop_last();
        lemma_missing_push(init, discovered, x);
        let last = pages.last();
        if discovered.contains(last) {
            let i = choose|i: int| 0 <= i < discovered.len() && discovered[i] == last;
            assert(discovered.push(x)[i] == last);
        }
        if last == x {
            assert(discovered.push(x)[discovered.len() as int] == x);
        } else if discovered.push(x).contains(last) {
            let i = choose|i: int| 0 <= i < discovered.push(x).len() && discovered.push(x)[i] == last;
            assert(discovered[i] == last);
        }
        if pages.contains(x) && last != x {
            let i = choose|i: int| 0 <= i < pages.len() && pages[i] == x;
            assert(init[i] == x);
        }
    }
}

/// Pages of `pages` that are discovered anew are missing no longer.
proof fn lemma_missing_grow(pages: Seq<Seq<char>>, discovered: Seq<Seq<char>>, fresh: Seq<Seq<char>>)
    requires
        (discovered + fresh).no_duplicates(),
        forall|i: int| 0 <= i < fresh.len() ==> pages.contains(#[trigger] fresh[i]),
    ensures
        missing(pages, discovered + fresh) + fresh.len() <= missing(pages, discovered),
    decreases fresh.len(),
{
    if fresh.len() == 0 {
        assert(discovered + fresh =~= discovered);
    } else {
        let init = fresh.drop_last();
        let all = discovered + fresh;
        assert(discovered + init =~= all.drop_last());
        assert((discovered + init).no_duplicates()) by {
            assert forall|i: int, j: int|
                0 <= i < all.drop_last().len() && 0 <= j < all.drop_last().len() && i
                    != j implies all.drop_last()[i] != all.drop_last()[j] by {
                assert(all[i] != all[j]);
            }
        }
        assert forall|i: int| 0 <= i < init.len() implies pages.contains(#[trigger] init[i]) by {
            assert(pages.contains(fresh[i]));
        }
        lemma_missing_grow(pages, discovered, init);
        assert(all =~= (discovered + init).push(fresh.last()));
        assert(pages.contains(fresh[fresh.len() - 1]));
        assert(!(discovered + init).contains(fresh.last())) by {
            if (discovered + init).contains(fresh.last()) {
                let i = choose|i: int|
                    0 <= i < (discovered + init).len() && (discovered + init)[i] == fresh.last();
                assert(all[i] == all[all.len() - 1]);
            }
        }
        lemma_missing_push(pages, discovered + init, fresh.last());
    }
}

/// Every link of the site leads to a page of `pages`.
pub open spec fn covers(pages: Seq<Seq<char>>, site: Site) -> bool {
    forall|u: Seq<char>, k: int|
        0 <= k < (site.links)(u).len() ==> pages.contains(#[trigger] (site.links)(u)[k])
}

impl Crawl {
    /// Worker `w` may move: it is not done, and if it sleeps, no worker
    /// is awake. A sleeping worker is left to sleep while others can
    /// move.
    pub open spec fn may_move(self, w: int) -> bool {
        &&& 0 <= w < self.phases.len()
        &&& !(self.phases[w] is Exited)
        &&& self.phases[w] is Sleeping ==> self.frontier.active_workers == 0
    }

    /// Each move of `schedule` is made by a worker that may move.
    pub open spec fn orderly(self, schedule: Seq<int>, site: Site) -> bool
        decreases schedule.len(),
    {
        schedule.len() > 0 ==> self.orderly(schedule.drop_last(), site) && self.run(
            schedule.drop_last(),
            site,
        ).may_move(schedule.last())
    }

    /// Once a worker is done, at most one worker is awake.
    pub open spec fn calm(self) -> bool {
        self.exited() > 0 ==> self.frontier.active_workers <= 1
    }

    /// A bound on the moves that still do work on a site whose pages
    /// are `pages`: three for each page not yet discovered, two for each
    /// page queued, one for each page being fetched.
    pub open spec fn work(self, pages: Seq<Seq<char>>) -> nat {
        3 * missing(pages, self.frontier.discovered_urls) + 2 * self.frontier.queue.len()
            + self.fetching()
    }

    /// A bound on the moves that the workers can still make on a site
    /// whose pages are `pages`: those that do work, and what the workers
    /// need to find out that nothing is left.
    pub open spec fn work_left(self, pages: Seq<Seq<char>>) -> nat {
        self.work(pages) + if self.exited() > 0 {
            tally(self.phases, Count::Late)
        } else {
            2 * self.phases.len() + 1 + tally(self.phases, Count::Early)
        }
    }

    /// The move of worker `w` does work: the worker takes a page from
    /// the queue, or reports the page it has fetched.
    pub open spec fn is_busy(self, w: int) -> bool {
        0 <= w < self.phases.len() && match self.phases[w] {
            Phase::Ready => self.frontier.queue.len() > 0,
            Phase::Fetching(_) => true,
            _ => false,
        }
    }

    /// The number of moves of `schedule` that do work.
    pub open spec fn busy_moves(self, schedule: Seq<int>, site: Site) -> nat
        decreases schedule.len(),
    {
        if schedule.len() == 0 {
            0
        } else {
            self.busy_moves(schedule.drop_last(), site) + if self.run(
                schedule.drop_last(),
                site,
            ).is_busy(schedule.last()) {
                1nat
            } else {
                0nat
            }
        }
    }
}

/// No move adds work, and every move that does work uses some up,
/// whatever worker moves and whenever.
pub proof fn lemma_move_never_adds_work(
    c: Crawl,
    w: int,
    start_url: Seq<char>,
    site: Site,
    pages: Seq<Seq<char>>,
)
    requires
        c.consistent(start_url, site),
        covers(pages, site),
    ensures
        c.advance(w, site).work(pages) <= c.work(pages),
        c.is_busy(w) ==> c.advance(w, site).work(pages) < c.work(pages),
{
    let f = c.frontier;
    let d = c.advance(w, site);
    let g = d.frontier;
    if 0 <= w < c.phases.len() {
        let p = d.phases[w];
        lemma_tally_update(c.phases, Count::Fetching, w, p);
        match c.phases[w] {
            Phase::Exited => {},
            Phase::Sleeping => {
                assert(d.phases =~= c.phases.update(w, Phase::Ready));
            },
            Phase::Fetching(u) => {
                let found = (site.links)(u);
                let links = kept_links(site, site_host(start_url), u);
                lemma_links_on_host(found, Some(site_host(start_url)));
                assert(d.phases =~= c.phases.update(w, Phase::Ready));
                lemma_page_effect(f, links);
                assert(grown(f, g, links));
                let n = f.discovered_urls.len() as int;
                let fresh = g.discovered_urls.skip(n);
                assert(g.discovered_urls =~= f.discovered_urls + fresh);
                assert forall|i: int| 0 <= i < fresh.len() implies pages.contains(
                    #[trigger] fresh[i],
                ) by {
                    let x = fresh[i];
                    assert(g.discovered_urls[n + i] == x);
                    assert(g.discovered_urls.contains(x));
                    if f.discovered_urls.contains(x) {
                        let j = choose|j: int| 0 <= j < n && f.discovered_urls[j] == x;
                        assert(g.discovered_urls[j] == x);
                        assert(false);
                    }
                    let k = choose|k: int| 0 <= k < links.len() && links[k] == x;
                    assert(found.contains(links[k]));
                    let m = choose|m: int| 0 <= m < found.len() && found[m] == x;
                    assert(pages.contains((site.links)(u)[m]));
                }
                lemma_missing_grow(pages, f.discovered_urls, fresh);
            },
            Phase::Ready => {},
        }
    }
}

/// Whatever the order of the workers' moves, only so many of them do
/// work: on a site of finitely many pages no more than three for each
/// page, and two. A run that does not come to an end can therefore only
/// go on with workers that find the queue empty, fall asleep and wake.
pub proof fn lemma_work_is_bounded(
    start_url: Seq<char>,
    workers: nat,
    schedule: Seq<int>,
    site: Site,
    pages: Seq<Seq<char>>,
)
    requires
        covers(pages, site),
    ensures
        Crawl::start(start_url, workers).busy_moves(schedule, site) + Crawl::start(
            start_url,
            workers,
        ).run(schedule, site).work(pages) <= 3 * pages.len() + 2,
    decreases schedule.len(),
{
    let c0 = Crawl::start(start_url, workers);
    if schedule.len() == 0 {
        lemma_start_consistent(start_url, workers, site);
        lemma_missing_bound(pages, c0.frontier.discovered_urls);
    } else {
        lemma_work_is_bounded(start_url, workers, schedule.drop_last(), site, pages);
        lemma_run_consistent(start_url, workers, schedule.drop_last(), site);
        lemma_move_never_adds_work(
            c0.run(schedule.drop_last(), site),
            schedule.last(),
            start_url,
            site,
            pages,
        );
    }
}

/// Every move of a worker that may move brings the end nearer.
pub proof fn lemma_move_uses_work(
    c: Crawl,
    w: int,
    start_url: Seq<char>,
    site: Site,
    pages: Seq<Seq<char>>,
)
    requires
        c.consistent(start_url, site),
        c.calm(),
        c.may_move(w),
        covers(pages, site),
    ensures
        c.advance(w, site).calm(),
        c.advance(w, site).work_left(pages) < c.work_left(pages),
{
    let f = c.frontier;
    let d = c.advance(w, site);
    let g = d.frontier;
    let p = d.phases[w];
    lemma_advance_consistent(c, w, start_url, site);
    lemma_move_never_adds_work(c, w, start_url, site, pages);
    lemma_tally_bounds(c.phases, Count::Active);
    lemma_tally_bounds(d.phases, Count::Late);
    lemma_tally_covers(c.phases, Count::Active, w, w);
    lemma_tally_covers(c.phases, Count::Fetching, w, w);
    lemma_tally_covers(c.phases, Count::Early, w, w);
    lemma_tally_update(c.phases, Count::Active, w, p);
    lemma_tally_update(c.phases, Count::Fetching, w, p);
    lemma_tally_update(c.phases, Count::Exited, w, p);
    lemma_tally_update(c.phases, Count::Early, w, p);
    lemma_tally_update(c.phases, Count::Late, w, p);
    match c.phases[w] {
        Phase::Exited => {},
        Phase::Sleeping => {
            assert(d.phases =~= c.phases.update(w, Phase::Ready));
        },
        Phase::Fetching(u) => {
            assert(d.phases =~= c.phases.update(w, Phase::Ready));
        },
        Phase::Ready => {
            if f.queue.len() > 0 {
                assert(c.exited() == 0);
            }
        },
    }
}

/// The workers cannot go on for ever: on a site of finitely many
/// pages, a run in which sleeping workers are left to sleep while others
/// can move has no more moves than three for each page of the site, four
/// for each worker, and three.
pub proof fn lemma_orderly_run_is_bounded(
    start_url: Seq<char>,
    workers: nat,
    schedule: Seq<int>,
    site: Site,
    pages: Seq<Seq<char>>,
)
    requires
        covers(pages, site),
        Crawl::start(start_url, workers).orderly(schedule, site),
    ensures
        Crawl::start(start_url, workers).run(schedule, site).consistent(start_url, site),
        Crawl::start(start_url, workers).run(schedule, site).calm(),
        schedule.len() + Crawl::start(start_url, workers).run(schedule, site).work_left(pages)
            <= 3 * pages.len() + 4 * workers + 3,
    decreases schedule.len(),
{
    let c0 = Crawl::start(start_url, workers);
    lemma_run_consistent(start_url, workers, schedule, site);
    if schedule.len() == 0 {
        lemma_start_consistent(start_url, workers, site);
        lemma_missing_bound(pages, c0.frontier.discovered_urls);
    } else {
        lemma_orderly_run_is_bounded(start_url, workers, schedule.drop_last(), site, pages);
        lemma_move_uses_work(
            c0.run(schedule.drop_last(), site),
            schedule.last(),
            start_url,
            site,
            pages,
        );
    }
}

/// The workers cannot get stuck: while some worker is not done, some
/// worker may move.
pub proof fn lemma_some_worker_may_move(c: Crawl, start_url: Seq<char>, site: Site) -> (w: int)
    requires
        c.consistent(start_url, site),
        !c.all_exited(),
    ensures
        c.may_move(w),
{
    if c.frontier.active_workers > 0 {
        lemma_tally_positive(c.phases, Count::Active)
    } else {
        let w = choose|w: int| 0 <= w < c.phases.len() && !(#[trigger] c.phases[w] is Exited);
        lemma_tally_covers(c.phases, Count::Active, w, w);
        w
    }
}

/// Discovery ends with the site discovered. When every worker is done,
/// nothing is queued, no worker counts as active, and the pages
/// discovered are exactly the start page and those that can be reached
/// from it by links, whatever the order in which the workers moved.
pub proof fn lemma_discovery_finds_the_site(
    start_url: Seq<char>,
    workers: nat,
    schedule: Seq<int>,
    site: Site,
)
    requires
        workers > 0,
        Crawl::start(start_url, workers).run(schedule, site).all_exited(),
    ensures
        Crawl::start(start_url, workers).run(schedule, site).frontier.converged(),
        forall|v: Seq<char>|
            Crawl::start(start_url, workers).run(schedule, site).frontier.discovered_urls.contains(
                v,
            ) <==> #[trigger] reachable(site, start_url, v),
{
    let c = Crawl::start(start_url, workers).run(schedule, site);
    lemma_run_consistent(start_url, workers, schedule, site);
    lemma_tally_all(c.phases);
    lemma_tally_bounds(c.phases, Count::Active);
    lemma_discovery_complete(c, start_url, site);
}

/// On a site of which each page links to every other, the pages that
/// can be reached from a page of the site are the pages of the site.
pub proof fn lemma_fully_connected(pages: Seq<Seq<char>>, site: Site, start_url: Seq<char>)
    requires
        covers(pages, site),
        pages.contains(start_url),
        forall|a: Seq<char>, b: Seq<char>|
            pages.contains(a) && pages.contains(b) && a != b ==> #[trigger] kept_links(
                site,
                site_host(start_url),
                a,
            ).contains(b),
    ensures
        forall|v: Seq<char>| pages.contains(v) <==> #[trigger] reachable(site, start_url, v),
{
    let base = site_host(start_url);
    assert forall|v: Seq<char>| pages.contains(v) <==> #[trigger] reachable(
        site,
        start_url,
        v,
    ) by {
        if pages.contains(v) {
            if v != start_url {
                let q = seq![start_url, v];
                assert(kept_links(site, base, start_url).contains(v));
                assert(is_path(site, base, q));
            } else {
                let q = seq![start_url];
                assert(is_path(site, base, q));
            }
        }
        if reachable(site, start_url, v) {
            let p = choose|p: Seq<Seq<char>>|
                #[trigger] is_path(site, base, p) && p.len() >= 1 && p[0] == start_url
                    && p.last() == v;
            if p.len() >= 2 {
                let i = p.len() - 2;
                let found = (site.links)(p[i]);
                let links = kept_links(site, base, p[i]);
                lemma_links_on_host(found, Some(base));
                assert(kept_links(site, base, p[i]).contains(p[i + 1]));
                let k = choose|k: int| 0 <= k < links.len() && links[k] == p[i + 1];
                assert(found.contains(links[k]));
                let m = choose|m: int| 0 <= m < found.len() && found[m] == p[i + 1];
                assert(pages.contains((site.links)(p[i])[m]));
            }
        }
    }
}

} // verus!
