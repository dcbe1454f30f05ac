//! The discovery frontier: the work queue that discovery workers share,
//! the set of pages already handed out, what has been discovered so far,
//! and the count of workers that are not waiting for work. The start
//! page counts as discovered from the beginning.
//!
//! A worker asks the frontier what to do next, does it outside, and
//! reports back. The frontier is only ever touched under exclusive
//! access, so each of its operations is one critical section.

use crate::text::{sort_dedup, strictly_sorted, texts};
use crate::urls::{
    base_host, base_host_from, host_of, links_on_host, on_host, parsed_url, same_host_links,
};
use std::collections::VecDeque;
use vstd::prelude::*;

verus! {

/// The milliseconds that a worker sleeps when it finds the queue empty
/// while other workers are still active.
pub const IDLE_SLEEP_MILLIS: u64 = 100;

/// The frontier as mathematical values. The sets are lists without
/// repeats, in the order in which their members came in.
pub struct FrontierView {
    pub queue: Seq<Seq<char>>,
    pub visited: Seq<Seq<char>>,
    pub discovered_urls: Seq<Seq<char>>,
    pub discovered_assets: Seq<Seq<char>>,
    pub active_workers: nat,
    pub workers: nat,
    /// The host that discovery is held to.
    pub base_host: Seq<char>,
    /// The page that discovery started at.
    pub start_url: Seq<char>,
}

/// What a worker is told to do, as mathematical values.
pub enum StepView {
    /// Fetch this page and report what it links to.
    Process(Seq<char>),
    /// The page taken from the queue was handed out before: ask again.
    Skip,
    /// The queue is empty while others still work: sleep, wake, ask again.
    Wait,
    /// The queue is empty and nobody else can fill it: stop.
    Terminate,
}

/// What a worker is told to do.
#[derive(Debug)]
pub enum WorkerStep {
    /// Fetch this page and report what it links to.
    Process(String),
    /// The page taken from the queue was handed out before: ask again.
    Skip,
    /// The queue is empty while others still work: sleep, wake, ask again.
    Wait,
    /// The queue is empty and nobody else can fill it: stop.
    Terminate,
}

impl View for WorkerStep {
    type V = StepView;

    open spec fn view(&self) -> StepView {
        match self {
            WorkerStep::Process(url) => StepView::Process(url@),
            WorkerStep::Skip => StepView::Skip,
            WorkerStep::Wait => StepView::Wait,
            WorkerStep::Terminate => StepView::Terminate,
        }
    }
}

/// `s` with `x` at its end unless it holds `x` already.
pub open spec fn with_member(s: Seq<Seq<char>>, x: Seq<char>) -> Seq<Seq<char>> {
    if s.contains(x) {
        s
    } else {
        s.push(x)
    }
}

/// `s` with each text of `xs` that it lacks, in the order of `xs`.
pub open spec fn with_members(s: Seq<Seq<char>>, xs: Seq<Seq<char>>) -> Seq<Seq<char>>
    decreases xs.len(),
{
    if xs.len() == 0 {
        s
    } else {
        with_member(with_members(s, xs.drop_last()), xs.last())
    }
}

impl FrontierView {
    /// No set holds a member twice, the start page is the first of the
    /// discovered pages, and no more workers are counted as active than
    /// there are.
    pub open spec fn wf(self) -> bool {
        &&& self.visited.no_duplicates()
        &&& self.discovered_urls.no_duplicates()
        &&& self.discovered_assets.no_duplicates()
        &&& self.discovered_urls.len() > 0
        &&& self.discovered_urls[0] == self.start_url
        &&& self.active_workers <= self.workers
    }

    /// Every discovered page but the start page is on the host that
    /// discovery is held to. The start page itself may have no host.
    pub open spec fn held_to_host(self) -> bool {
        forall|i: int|
            0 <= i < self.discovered_urls.len() ==> #[trigger] self.discovered_urls[i]
                == self.start_url || host_of(parsed_url(self.discovered_urls[i])) == Some(
                self.base_host,
            )
    }

    /// The frontier of a new run: the start page is queued and counts
    /// as discovered, all `workers` workers count as active, and
    /// discovery is held to the host of the start page.
    pub open spec fn start(start_url: Seq<char>, workers: nat) -> FrontierView {
        FrontierView {
            queue: seq![start_url],
            visited: Seq::empty(),
            discovered_urls: seq![start_url],
            discovered_assets: Seq::empty(),
            active_workers: workers,
            workers,
            base_host: base_host_from(parsed_url(start_url)),
            start_url,
        }
    }

    /// What a worker that asks now is told.
    pub open spec fn step(self) -> StepView {
        if self.queue.len() == 0 {
            if self.active_workers <= 1 {
                StepView::Terminate
            } else {
                StepView::Wait
            }
        } else if self.visited.contains(self.queue[0]) {
            StepView::Skip
        } else {
            StepView::Process(self.queue[0])
        }
    }

    /// The frontier after a worker has asked. With an empty queue the
    /// worker stops counting as active. Else the first page leaves the
    /// queue and is marked as visited.
    pub open spec fn after_step(self) -> FrontierView {
        if self.queue.len() == 0 {
            FrontierView {
                active_workers: if self.active_workers > 0 {
                    (self.active_workers - 1) as nat
                } else {
                    0
                },
                ..self
            }
        } else {
            FrontierView {
                queue: self.queue.skip(1),
                visited: with_member(self.visited, self.queue[0]),
                ..self
            }
        }
    }

    /// The frontier after a worker that was waiting counts as active
    /// again.
    pub open spec fn after_wake(self) -> FrontierView {
        FrontierView {
            active_workers: if self.active_workers < self.workers {
                self.active_workers + 1
            } else {
                self.active_workers
            },
            ..self
        }
    }

    /// The frontier after one link was reported: a link not seen before
    /// joins the discovered pages and the end of the queue.
    pub open spec fn with_link(self, link: Seq<char>) -> FrontierView {
        if self.discovered_urls.contains(link) {
            self
        } else {
            FrontierView {
                discovered_urls: self.discovered_urls.push(link),
                queue: self.queue.push(link),
                ..self
            }
        }
    }

    /// The frontier after the links of a page were reported, in order.
    pub open spec fn with_links(self, links: Seq<Seq<char>>) -> FrontierView
        decreases links.len(),
    {
        if links.len() == 0 {
            self
        } else {
            self.with_links(links.drop_last()).with_link(links.last())
        }
    }

    /// The frontier after a page's links and assets were reported.
    pub open spec fn after_page(self, links: Seq<Seq<char>>, assets: Seq<Seq<char>>) -> FrontierView {
        let f = self.with_links(links);
        FrontierView { discovered_assets: with_members(f.discovered_assets, assets), ..f }
    }

    /// The frontier after the links and assets found on a page were
    /// reported: of the links those on the host that discovery is held to
    /// are taken in, and all of the assets.
    pub open spec fn after_found(self, links: Seq<Seq<char>>, assets: Seq<Seq<char>>) -> FrontierView {
        self.after_page(links_on_host(links, Some(self.base_host)), assets)
    }

    /// Discovery has converged: nothing is queued and no worker counts
    /// as active.
    pub open spec fn converged(self) -> bool {
        self.queue.len() == 0 && self.active_workers == 0
    }
}

/// One operation on the frontier.
pub enum FrontierOp {
    /// A worker asks what to do.
    Step,
    /// A worker that waited counts as active again.
    Wake,
    /// A worker reports the links and assets found on a page.
    Page(Seq<Seq<char>>, Seq<Seq<char>>),
}

impl FrontierView {
    /// The frontier after one operation.
    pub open spec fn apply(self, op: FrontierOp) -> FrontierView {
        match op {
            FrontierOp::Step => self.after_step(),
            FrontierOp::Wake => self.after_wake(),
            FrontierOp::Page(links, assets) => self.after_found(links, assets),
        }
    }

    /// The frontier after the operations of `ops`, in that order.
    pub open spec fn run(self, ops: Seq<FrontierOp>) -> FrontierView
        decreases ops.len(),
    {
        if ops.len() == 0 {
            self
        } else {
            self.run(ops.drop_last()).apply(ops.last())
        }
    }

    /// The pages handed out for processing during the operations of
    /// `ops`, in that order.
    pub open spec fn handed_out(self, ops: Seq<FrontierOp>) -> Seq<Seq<char>>
        decreases ops.len(),
    {
        if ops.len() == 0 {
            Seq::empty()
        } else {
            let before = self.run(ops.drop_last());
            let earlier = self.handed_out(ops.drop_last());
            match (ops.last(), before.step()) {
                (FrontierOp::Step, StepView::Process(url)) => earlier.push(url),
                _ => earlier,
            }
        }
    }
}

/// Adding members keeps a list free of repeats, keeps what it held, and
/// makes it hold exactly what it held and what was added.
pub proof fn lemma_with_members(s: Seq<Seq<char>>, xs: Seq<Seq<char>>)
    requires
        s.no_duplicates(),
    ensures
        with_members(s, xs).no_duplicates(),
        with_members(s, xs).len() >= s.len(),
        with_members(s, xs).subrange(0, s.len() as int) == s,
        with_members(s, xs).to_set() == s.to_set().union(xs.to_set()),
    decreases xs.len(),
{
    if xs.len() == 0 {
        assert(with_members(s, xs).subrange(0, s.len() as int) =~= s);
        assert(xs.to_set() =~= Set::<Seq<char>>::empty());
        assert(s.to_set().union(xs.to_set()) =~= s.to_set());
    } else {
        let init = xs.drop_last();
        let m = with_members(s, init);
        lemma_with_members(s, init);
        let r = with_member(m, xs.last());
        assert(r.subrange(0, s.len() as int) =~= m.subrange(0, s.len() as int));
        assert(r.to_set() =~= m.to_set().insert(xs.last())) by {
            assert forall|x: Seq<char>| r.to_set().contains(x) <==> m.to_set().insert(
                xs.last(),
            ).contains(x) by {
                if r.to_set().contains(x) {
                    let k = choose|k: int| 0 <= k < r.len() && r[k] == x;
                    if k < m.len() {
                        assert(m[k] == x);
                    }
                }
                if m.to_set().contains(x) {
                    let k = choose|k: int| 0 <= k < m.len() && m[k] == x;
                    assert(r[k] == x);
                }
                if x == xs.last() && !m.contains(x) {
                    assert(r[m.len() as int] == x);
                }
            }
        }
        assert(xs.to_set() =~= init.to_set().insert(xs.last())) by {
            assert forall|x: Seq<char>| xs.to_set().contains(x) <==> init.to_set().insert(
                xs.last(),
            ).contains(x) by {
                if xs.to_set().contains(x) {
                    let k = choose|k: int| 0 <= k < xs.len() && xs[k] == x;
                    if k < init.len() {
                        assert(init[k] == x);
                    }
                }
                if init.to_set().contains(x) {
                    let k = choose|k: int| 0 <= k < init.len() && init[k] == x;
                    assert(xs[k] == x);
                }
                if x == xs.last() {
                    assert(xs[xs.len() - 1] == x);
                }
            }
        }
        assert(r.to_set() =~= s.to_set().union(xs.to_set()));
    }
}

/// Reported links keep the frontier well formed, leave the visited pages
/// and the worker count alone, and queue exactly the links that were not
/// discovered before, each once.
pub proof fn lemma_with_links(f: FrontierView, links: Seq<Seq<char>>)
    requires
        f.wf(),
    ensures
        f.with_links(links).wf(),
        f.with_links(links).visited == f.visited,
        f.with_links(links).discovered_assets == f.discovered_assets,
        f.with_links(links).active_workers == f.active_workers,
        f.with_links(links).workers == f.workers,
        f.with_links(links).base_host == f.base_host,
        f.with_links(links).start_url == f.start_url,
        f.with_links(links).discovered_urls == with_members(f.discovered_urls, links),
        f.with_links(links).queue == f.queue + with_members(f.discovered_urls, links).skip(
            f.discovered_urls.len() as int,
        ),
    decreases links.len(),
{
    if links.len() == 0 {
        assert(f.discovered_urls.skip(f.discovered_urls.len() as int) =~= Seq::<
            Seq<char>,
        >::empty());
        assert(f.queue + Seq::<Seq<char>>::empty() =~= f.queue);
    } else {
        let init = links.drop_last();
        lemma_with_links(f, init);
        lemma_with_members(f.discovered_urls, init);
        let g = f.with_links(init);
        let n = f.discovered_urls.len() as int;
        if !g.discovered_urls.contains(links.last()) {
            assert(g.discovered_urls.push(links.last()).skip(n) =~= g.discovered_urls.skip(
                n,
            ).push(links.last()));
            assert(g.queue.push(links.last()) =~= f.queue + g.discovered_urls.skip(n).push(
                links.last(),
            ));
        }
    }
}

/// The links that are kept for a host are on that host.
pub proof fn lemma_links_on_host(links: Seq<Seq<char>>, base: Option<Seq<char>>)
    ensures
        forall|i: int|
            0 <= i < links_on_host(links, base).len() ==> on_host(
                base,
                host_of(parsed_url(#[trigger] links_on_host(links, base)[i])),
            ),
        forall|i: int|
            0 <= i < links_on_host(links, base).len() ==> links.contains(
                #[trigger] links_on_host(links, base)[i],
            ),
    decreases links.len(),
{
    if links.len() > 0 {
        lemma_links_on_host(links.drop_last(), base);
        let earlier = links_on_host(links.drop_last(), base);
        assert forall|i: int| 0 <= i < links_on_host(links, base).len() implies links.contains(
            #[trigger] links_on_host(links, base)[i],
        ) by {
            if i < earlier.len() {
                assert(links.drop_last().contains(earlier[i]));
                let k = choose|k: int| 0 <= k < links.len() - 1 && links.drop_last()[k] == earlier[i];
                assert(links[k] == earlier[i]);
            } else {
                assert(links[links.len() - 1] == links.last());
            }
        }
    }
}

/// Links taken in from one host leave the discovered pages, but for the
/// start page, on that host.
pub proof fn lemma_found_held_to_host(f: FrontierView, links: Seq<Seq<char>>, assets: Seq<Seq<char>>)
    requires
        f.wf(),
        f.held_to_host(),
    ensures
        f.after_found(links, assets).wf(),
        f.after_found(links, assets).held_to_host(),
{
    let kept = links_on_host(links, Some(f.base_host));
    let g = f.after_found(links, assets);
    lemma_links_on_host(links, Some(f.base_host));
    lemma_with_links(f, kept);
    lemma_with_members(f.discovered_urls, kept);
    lemma_with_members(f.with_links(kept).discovered_assets, assets);
    assert forall|i: int| 0 <= i < g.discovered_urls.len() implies #[trigger] g.discovered_urls[i]
        == g.start_url || host_of(parsed_url(g.discovered_urls[i])) == Some(g.base_host) by {
        let x = g.discovered_urls[i];
        assert(g.discovered_urls.to_set().contains(x));
        if f.discovered_urls.to_set().contains(x) {
            let j = choose|j: int| 0 <= j < f.discovered_urls.len() && f.discovered_urls[j] == x;
            assert(f.discovered_urls[j] == f.start_url || host_of(
                parsed_url(f.discovered_urls[j]),
            ) == Some(f.base_host));
        } else {
            assert(kept.to_set().contains(x));
            let j = choose|j: int| 0 <= j < kept.len() && kept[j] == x;
            assert(on_host(Some(f.base_host), host_of(parsed_url(kept[j]))));
        }
    }
}

/// No page is processed twice. Whatever the workers do and in whatever
/// order, from the start of a run on, the pages handed out for
/// processing are exactly the visited pages, each handed out once.
pub proof fn lemma_each_page_processed_once(
    start_url: Seq<char>,
    workers: nat,
    ops: Seq<FrontierOp>,
)
    ensures
        FrontierView::start(start_url, workers).run(ops).wf(),
        FrontierView::start(start_url, workers).handed_out(ops) == FrontierView::start(
            start_url,
            workers,
        ).run(ops).visited,
        FrontierView::start(start_url, workers).handed_out(ops).no_duplicates(),
    decreases ops.len(),
{
    let f0 = FrontierView::start(start_url, workers);
    if ops.len() > 0 {
        lemma_each_page_processed_once(start_url, workers, ops.drop_last());
        let before = f0.run(ops.drop_last());
        match ops.last() {
            FrontierOp::Step => {},
            FrontierOp::Wake => {},
            FrontierOp::Page(links, assets) => {
                let kept = links_on_host(links, Some(before.base_host));
                lemma_with_links(before, kept);
                lemma_with_members(before.with_links(kept).discovered_assets, assets);
            },
        }
    }
}

/// True when `v` holds a string with the text of `s`.
pub fn contains_text(v: &Vec<String>, s: &String) -> (b: bool)
    ensures
        b == texts(v@).contains(s@),
{
    let mut i: usize = 0;
    while i < v.len()
        invariant
            i <= v.len(),
            forall|j: int| 0 <= j < i ==> texts(v@)[j] != s@,
        decreases v.len() - i,
    {
        if v[i] == *s {
            assert(texts(v@)[i as int] == s@);
            return true;
        }
        i += 1;
    }
    false
}

/// The discovery frontier.
pub struct Frontier {
    queue: VecDeque<String>,
    visited: Vec<String>,
    discovered_urls: Vec<String>,
    discovered_assets: Vec<String>,
    active_workers: usize,
    workers: usize,
    base_host: String,
    start_url: String,
}

impl View for Frontier {
    type V = FrontierView;

    closed spec fn view(&self) -> FrontierView {
        FrontierView {
            queue: texts(self.queue@),
            visited: texts(self.visited@),
            discovered_urls: texts(self.discovered_urls@),
            discovered_assets: texts(self.discovered_assets@),
            active_workers: self.active_workers as nat,
            workers: self.workers as nat,
            base_host: self.base_host@,
            start_url: self.start_url@,
        }
    }
}

impl Frontier {
    /// No set holds a member twice, the start page is the first of the
    /// discovered pages, no more workers are counted as active than
    /// there are, and every other discovered page is on the host that
    /// discovery is held to.
    pub open spec fn wf(&self) -> bool {
        self@.wf() && self@.held_to_host()
    }

    /// The frontier of a new run that starts at `start_url` with
    /// `workers` discovery workers.
    pub fn new(start_url: &str, workers: usize) -> (f: Frontier)
        ensures
            f.wf(),
            f@ == FrontierView::start(start_url@, workers as nat),
    {
        let mut queue: VecDeque<String> = VecDeque::new();
        queue.push_back(start_url.to_owned());
        let mut discovered_urls: Vec<String> = Vec::new();
        discovered_urls.push(start_url.to_owned());
        let f = Frontier {
            queue,
            visited: Vec::new(),
            discovered_urls,
            discovered_assets: Vec::new(),
            active_workers: workers,
            workers,
            base_host: base_host(start_url),
            start_url: start_url.to_owned(),
        };
        proof {
            assert(f@.queue =~= seq![start_url@]);
            assert(f@.visited =~= Seq::empty());
            assert(f@.discovered_urls =~= seq![start_url@]);
            assert(f@.discovered_assets =~= Seq::empty());
        }
        f
    }

    /// Tells a worker what to do next. An empty queue makes the worker
    /// stop counting as active, and ends it if no other worker is active.
    /// Else the first page of the queue is taken and marked as visited
    /// in the same step, and handed out unless it was visited before.
    pub fn next_step(&mut self) -> (step: WorkerStep)
        requires
            old(self).wf(),
        ensures
            final(self).wf(),
            step@ == old(self)@.step(),
            final(self)@ == old(self)@.after_step(),
    {
        let ghost before = self@;
        match self.queue.pop_front() {
            None => {
                if self.active_workers > 0 {
                    self.active_workers = self.active_workers - 1;
                }
                if self.active_workers == 0 {
                    WorkerStep::Terminate
                } else {
                    WorkerStep::Wait
                }
            },
            Some(url) => {
                assert(texts(self.queue@) =~= before.queue.skip(1));
                assert(url@ == before.queue[0]);
                if contains_text(&self.visited, &url) {
                    WorkerStep::Skip
                } else {
                    self.visited.push(url.clone());
                    assert(texts(self.visited@) =~= before.visited.push(url@));
                    WorkerStep::Process(url)
                }
            },
        }
    }

    /// Counts a worker that has waited as active again.
    pub fn wake(&mut self)
        requires
            old(self).wf(),
        ensures
            final(self).wf(),
            final(self)@ == old(self)@.after_wake(),
    {
        if self.active_workers < self.workers {
            self.active_workers = self.active_workers + 1;
        }
    }

    /// Takes in the links and assets found on a page. Links that lead
    /// off the host of the start page are dropped. A link not seen before
    /// joins the discovered pages and the queue; an asset not seen before
    /// joins the discovered assets.
    pub fn record_page(&mut self, found_links: &Vec<String>, assets: &Vec<String>)
        requires
            old(self).wf(),
        ensures
            final(self).wf(),
            final(self)@ == old(self)@.after_found(texts(found_links@), texts(assets@)),
            final(self)@.start_url == old(self)@.start_url,
            final(self)@.base_host == old(self)@.base_host,
            final(self)@.visited == old(self)@.visited,
            final(self)@.active_workers == old(self)@.active_workers,
            final(self)@.workers == old(self)@.workers,
    {
        let ghost before = self@;
        proof {
            lemma_found_held_to_host(before, texts(found_links@), texts(assets@));
            lemma_with_links(before, links_on_host(texts(found_links@), Some(before.base_host)));
        }
        let kept = same_host_links(found_links, self.base_host.as_str());
        let links = &kept;
        let mut i: usize = 0;
        while i < links.len()
            invariant
                i <= links.len(),
                before.wf(),
                self@ == before.with_links(texts(links@).subrange(0, i as int)),
            decreases links.len() - i,
        {
            let ghost done = texts(links@).subrange(0, i as int);
            proof {
                lemma_with_links(before, done);
                assert(texts(links@).subrange(0, i + 1).drop_last() =~= done);
            }
            if !contains_text(&self.discovered_urls, &links[i]) {
                let ghost urls = texts(self.discovered_urls@);
                let ghost queue = texts(self.queue@);
                self.discovered_urls.push(links[i].clone());
                self.queue.push_back(links[i].clone());
                assert(texts(self.discovered_urls@) =~= urls.push(links@[i as int]@));
                assert(texts(self.queue@) =~= queue.push(links@[i as int]@));
            }
            i += 1;
        }
        assert(texts(links@).subrange(0, i as int) =~= texts(links@));
        let ghost linked = self@;
        proof {
            lemma_with_links(before, texts(links@));
        }
        let mut k: usize = 0;
        while k < assets.len()
            invariant
                k <= assets.len(),
                linked.wf(),
                self@ == (FrontierView {
                    discovered_assets: with_members(
                        linked.discovered_assets,
                        texts(assets@).subrange(0, k as int),
                    ),
                    ..linked
                }),
            decreases assets.len() - k,
        {
            let ghost done = texts(assets@).subrange(0, k as int);
            proof {
                assert(texts(assets@).subrange(0, k + 1).drop_last() =~= done);
            }
            if !contains_text(&self.discovered_assets, &assets[k]) {
                let ghost held = texts(self.discovered_assets@);
                self.discovered_assets.push(assets[k].clone());
                assert(texts(self.discovered_assets@) =~= held.push(assets@[k as int]@));
            }
            k += 1;
        }
        assert(texts(assets@).subrange(0, k as int) =~= texts(assets@));
        proof {
            lemma_with_members(linked.discovered_assets, texts(assets@));
        }
    }

    /// True when nothing is queued and no worker counts as active.
    pub fn is_converged(&self) -> (b: bool)
        ensures
            b == self@.converged(),
    {
        self.queue.len() == 0 && self.active_workers == 0
    }

    /// The number of workers that count as active.
    pub fn active_workers(&self) -> (n: usize)
        ensures
            n == self@.active_workers,
    {
        self.active_workers
    }

    /// The number of pages waiting in the queue.
    pub fn queued(&self) -> (n: usize)
        ensures
            n == self@.queue.len(),
    {
        self.queue.len()
    }

    /// The pages handed out so far, in the order in which they were.
    pub fn visited(&self) -> (v: &Vec<String>)
        ensures
            texts(v@) == self@.visited,
    {
        &self.visited
    }

    /// The pages discovered so far, in the order in which they were.
    pub fn discovered_urls(&self) -> (v: &Vec<String>)
        ensures
            texts(v@) == self@.discovered_urls,
    {
        &self.discovered_urls
    }

    /// The assets discovered so far, in the order in which they were.
    pub fn discovered_assets(&self) -> (v: &Vec<String>)
        ensures
            texts(v@) == self@.discovered_assets,
    {
        &self.discovered_assets
    }

    /// What discovery has found: the start page, the pages discovered
    /// from it and the assets, each once, in the order of strings.
    pub fn discovered(&self) -> (out: Vec<String>)
        ensures
            strictly_sorted(texts(out@)),
            texts(out@).to_set() == self@.discovered_urls.to_set().union(
                self@.discovered_assets.to_set(),
            ),
            forall|other: Seq<Seq<char>>|
                #[trigger] strictly_sorted(other) && other.to_set()
                    == self@.discovered_urls.to_set().union(self@.discovered_assets.to_set())
                    ==> other == texts(out@),
            self.wf() ==> texts(out@).contains(self@.start_url),
            self.wf() ==> forall|i: int|
                0 <= i < out.len() ==> #[trigger] texts(out@)[i] == self@.start_url || host_of(
                    parsed_url(texts(out@)[i]),
                ) == Some(self@.base_host) || self@.discovered_assets.contains(texts(out@)[i]),
    {
        let mut all: Vec<String> = Vec::new();
        let mut i: usize = 0;
        while i < self.discovered_urls.len()
            invariant
                i <= self.discovered_urls.len(),
                texts(all@) == texts(self.discovered_urls@).subrange(0, i as int),
            decreases self.discovered_urls.len() - i,
        {
            let ghost held = texts(all@);
            all.push(self.discovered_urls[i].clone());
            assert(texts(all@) =~= held.push(self.discovered_urls@[i as int]@));
            assert(texts(self.discovered_urls@).subrange(0, i + 1) =~= held.push(
                self.discovered_urls@[i as int]@,
            ));
            i += 1;
        }
        assert(texts(self.discovered_urls@).subrange(0, i as int) =~= texts(
            self.discovered_urls@,
        ));
        let mut k: usize = 0;
        while k < self.discovered_assets.len()
            invariant
                k <= self.discovered_assets.len(),
                texts(all@) == texts(self.discovered_urls@) + texts(
                    self.discovered_assets@,
                ).subrange(0, k as int),
            decreases self.discovered_assets.len() - k,
        {
            let ghost held = texts(all@);
            all.push(self.discovered_assets[k].clone());
            assert(texts(all@) =~= held.push(self.discovered_assets@[k as int]@));
            assert(texts(self.discovered_assets@).subrange(0, k + 1) =~= texts(
                self.discovered_assets@,
            ).subrange(0, k as int).push(self.discovered_assets@[k as int]@));
            k += 1;
        }
        assert(texts(self.discovered_assets@).subrange(0, k as int) =~= texts(
            self.discovered_assets@,
        ));
        proof {
            vstd::seq_lib::seq_to_set_distributes_over_add(
                texts(self.discovered_urls@),
                texts(self.discovered_assets@),
            );
        }
        let out = sort_dedup(&all);
        proof {
            if self.wf() {
                let start = self@.start_url;
                assert(self@.discovered_urls.to_set().contains(start));
                assert(texts(out@).to_set().contains(start));
                assert forall|i: int| 0 <= i < out.len() implies #[trigger] texts(out@)[i] == start
                    || host_of(parsed_url(texts(out@)[i])) == Some(self@.base_host)
                    || self@.discovered_assets.contains(texts(out@)[i]) by {
                    let x = texts(out@)[i];
                    assert(texts(out@).to_set().contains(x));
                    if self@.discovered_urls.to_set().contains(x) {
                        let j = choose|j: int|
                            0 <= j < self@.discovered_urls.len() && self@.discovered_urls[j] == x;
                        assert(self@.discovered_urls[j] == start || host_of(
                            parsed_url(self@.discovered_urls[j]),
                        ) == Some(self@.base_host));
                    } else {
                        assert(self@.discovered_assets.to_set().contains(x));
                    }
                }
            }
        }
        out
    }
}

} // verus!
