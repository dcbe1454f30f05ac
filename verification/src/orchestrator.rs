//! The course of a run: where the URLs come from, how they are put
//! under load, and that every run that got as far as the load ends with
//! one report.

use crate::sitemap::SitemapError;
use crate::text::joined;
use vstd::prelude::*;

verus! {

/// The number of virtual users of a run that names none.
pub const DEFAULT_CONCURRENCY: usize = 25;

/// The seconds between two requests of a run that names none.
pub const DEFAULT_DELAY: u64 = 1;

/// Trusted: `num_cpus::get` returns the number of CPUs available to the
/// process, which its documentation states to be at least 1.
pub assume_specification[ num_cpus::get ]() -> (n: usize)
    ensures
        n >= 1,
;

/// The size of the discovery pool: the number asked for, and else half
/// the CPUs, but no fewer than 2 and no more than 8.
pub open spec fn pool_size(requested: Option<usize>, cpus: usize) -> usize {
    match requested {
        Some(n) => n,
        None => if cpus / 2 < 2 {
            2
        } else if cpus / 2 > 8 {
            8
        } else {
            cpus / 2
        },
    }
}

/// The size of the discovery pool on a machine with `cpus` CPUs.
pub fn discovery_threads_for(requested: Option<usize>, cpus: usize) -> (n: usize)
    ensures
        n == pool_size(requested, cpus),
        requested is None ==> 2 <= n <= 8,
{
    match requested {
        Some(n) => n,
        None => {
            let half = cpus / 2;
            if half < 2 {
                2
            } else if half > 8 {
                8
            } else {
                half
            }
        },
    }
}

/// The size of the discovery pool on this machine.
pub fn discovery_threads(requested: Option<usize>) -> (n: usize)
    ensures
        exists|cpus: usize| cpus >= 1 && n == pool_size(requested, cpus),
        requested matches Some(r) ==> n == r,
        requested is None ==> 2 <= n <= 8,
{
    let cpus = num_cpus::get();
    let n = discovery_threads_for(requested, cpus);
    assert(cpus >= 1 && n == pool_size(requested, cpus));
    n
}

/// The site that a run is aimed at: the one named, and else the local
/// host.
pub fn base_url(url: Option<&str>) -> (base: String)
    ensures
        base@ == match url {
            Some(u) => u@,
            None => "http://localhost"@,
        },
{
    match url {
        Some(u) => u.to_owned(),
        None => "http://localhost".to_owned(),
    }
}

/// What the user asked for, as far as the course of the run depends on
/// it.
#[derive(Clone, Copy, Debug, PartialEq, Eq, Structural)]
pub struct RunOptions {
    /// Discover the URLs by following links.
    pub follow_links: bool,
    /// Visit each discovered URL once and stop.
    pub crawl: bool,
}

/// Where a run stands.
#[derive(Clone, Copy, Debug, PartialEq, Eq, Structural)]
pub enum RunState {
    /// Nothing has happened yet.
    SelectingSource,
    /// The URLs are being read from the site's sitemaps.
    SitemapMode,
    /// The URLs are being discovered by following links.
    FollowLinksMode,
    /// The URL given is the only one to put under load.
    SingleUrlMode,
    /// The URLs are known and the load is about to start.
    ExecutingLoad,
    /// Each URL is being visited once.
    CrawlOnce,
    /// The virtual users are at work.
    SustainedLoad,
    /// The statistics are being closed and shown.
    Reporting,
    /// The run is over and was reported.
    Done,
    /// The run ended before any load, without a report.
    Aborted,
}

/// Why a run ended before any load.
#[derive(Clone, Copy, Debug, PartialEq, Eq, Structural)]
pub enum StartupError {
    /// The sitemaps gave no pages.
    Sitemap(SitemapError),
    /// Following links failed.
    FollowLinks,
    /// Discovery ended without a URL.
    NoUrls,
}

impl StartupError {
    /// The line that tells the user what went wrong, with the advice to
    /// follow links where the sitemaps were the trouble.
    pub fn message(&self) -> (text: String)
        ensures
            text@ == match self {
                StartupError::Sitemap(SitemapError::NoSitemapFound) => "Failed to load sitemap: "@
                    + "No valid sitemaps found"@ + ". Try using --follow-links option."@,
                StartupError::Sitemap(SitemapError::NoUrls) => "Failed to load sitemap: "@
                    + "No URLs found in any sitemap"@ + ". Try using --follow-links option."@,
                StartupError::FollowLinks => "Failed to follow links"@,
                StartupError::NoUrls => "No URLs found to test"@,
            },
    {
        match self {
            StartupError::Sitemap(e) => {
                let head = joined("Failed to load sitemap: ", e.message());
                joined(head.as_str(), ". Try using --follow-links option.")
            },
            StartupError::FollowLinks => "Failed to follow links".to_owned(),
            StartupError::NoUrls => "No URLs found to test".to_owned(),
        }
    }
}

/// What happened since the last step.
#[derive(Clone, Copy, Debug, PartialEq, Eq, Structural)]
pub enum RunEvent {
    /// The step before is done and the run may go on.
    Proceed,
    /// Discovery has ended with this many URLs.
    Discovered(usize),
    /// The sitemaps gave no pages.
    SitemapFailed(SitemapError),
    /// Following links failed.
    FollowLinksFailed,
    /// The load has run to its end.
    LoadFinished,
    /// The user has interrupted the run.
    Interrupted,
    /// The report was shown.
    Reported,
}

/// What is to be done next.
#[derive(Clone, Copy, Debug, PartialEq, Eq, Structural)]
pub enum RunAction {
    /// Read the URLs from the site's sitemaps.
    ResolveSitemap,
    /// Discover the URLs by following links.
    FollowLinks,
    /// Announce the load.
    Announce,
    /// Visit each URL once.
    RunCrawlOnce,
    /// Set the virtual users to work.
    RunLoad,
    /// Close the statistics and show the report.
    FinalizeAndReport,
    /// Tell the user why the run cannot start, and end it.
    Fail(StartupError),
    /// End the run.
    Exit,
    /// Nothing: the event does not concern the state.
    Nothing,
}

/// The source of the URLs: links are followed where the user asked for
/// it, whatever sitemaps there are; else the sitemaps are read.
pub open spec fn source_for(options: RunOptions) -> RunState {
    if options.follow_links {
        RunState::FollowLinksMode
    } else {
        RunState::SitemapMode
    }
}

/// The way the URLs are put under load: one visit each where the user
/// asked for a crawl, and else the virtual users.
pub open spec fn execution_for(options: RunOptions) -> RunState {
    if options.crawl {
        RunState::CrawlOnce
    } else {
        RunState::SustainedLoad
    }
}

/// True for the states in which a run is over.
pub open spec fn is_terminal(state: RunState) -> bool {
    state == RunState::Done || state == RunState::Aborted
}

/// The state that follows `state` on `event`, and what is to be done.
pub open spec fn next(state: RunState, event: RunEvent, options: RunOptions) -> (RunState, RunAction) {
    match (state, event) {
        (RunState::Reporting, RunEvent::Reported) => (RunState::Done, RunAction::Exit),
        (RunState::Reporting, _) => (state, RunAction::Nothing),
        (RunState::Done, _) => (state, RunAction::Nothing),
        (RunState::Aborted, _) => (state, RunAction::Nothing),
        (_, RunEvent::Interrupted) => (RunState::Reporting, RunAction::FinalizeAndReport),
        (RunState::SelectingSource, RunEvent::Proceed) => (
            source_for(options),
            if options.follow_links {
                RunAction::FollowLinks
            } else {
                RunAction::ResolveSitemap
            },
        ),
        (RunState::SitemapMode, RunEvent::SitemapFailed(e)) => (
            RunState::Aborted,
            RunAction::Fail(StartupError::Sitemap(e)),
        ),
        (RunState::FollowLinksMode, RunEvent::FollowLinksFailed) => (
            RunState::Aborted,
            RunAction::Fail(StartupError::FollowLinks),
        ),
        (RunState::SitemapMode, RunEvent::Discovered(n))
        | (RunState::FollowLinksMode, RunEvent::Discovered(n))
        | (RunState::SingleUrlMode, RunEvent::Discovered(n)) => if n == 0 {
            (RunState::Aborted, RunAction::Fail(StartupError::NoUrls))
        } else {
            (RunState::ExecutingLoad, RunAction::Announce)
        },
        (RunState::ExecutingLoad, RunEvent::Proceed) => (
            execution_for(options),
            if options.crawl {
                RunAction::RunCrawlOnce
            } else {
                RunAction::RunLoad
            },
        ),
        (RunState::CrawlOnce, RunEvent::LoadFinished) | (
            RunState::SustainedLoad,
            RunEvent::LoadFinished,
        ) => (RunState::Reporting, RunAction::FinalizeAndReport),
        _ => (state, RunAction::Nothing),
    }
}

/// The state that follows `state` on `event`, and what is to be done.
pub fn step(state: RunState, event: RunEvent, options: RunOptions) -> (r: (RunState, RunAction))
    ensures
        r == next(state, event, options),
{
    match (state, event) {
        (RunState::Reporting, RunEvent::Reported) => (RunState::Done, RunAction::Exit),
        (RunState::Reporting, _) => (state, RunAction::Nothing),
        (RunState::Done, _) => (state, RunAction::Nothing),
        (RunState::Aborted, _) => (state, RunAction::Nothing),
        (_, RunEvent::Interrupted) => (RunState::Reporting, RunAction::FinalizeAndReport),
        (RunState::SelectingSource, RunEvent::Proceed) => {
            if options.follow_links {
                (RunState::FollowLinksMode, RunAction::FollowLinks)
            } else {
                (RunState::SitemapMode, RunAction::ResolveSitemap)
            }
        },
        (RunState::SitemapMode, RunEvent::SitemapFailed(e)) => (
            RunState::Aborted,
            RunAction::Fail(StartupError::Sitemap(e)),
        ),
        (RunState::FollowLinksMode, RunEvent::FollowLinksFailed) => (
            RunState::Aborted,
            RunAction::Fail(StartupError::FollowLinks),
        ),
        (RunState::SitemapMode, RunEvent::Discovered(n))
        | (RunState::FollowLinksMode, RunEvent::Discovered(n))
        | (RunState::SingleUrlMode, RunEvent::Discovered(n)) => {
            if n == 0 {
                (RunState::Aborted, RunAction::Fail(StartupError::NoUrls))
            } else {
                (RunState::ExecutingLoad, RunAction::Announce)
            }
        },
        (RunState::ExecutingLoad, RunEvent::Proceed) => {
            if options.crawl {
                (RunState::CrawlOnce, RunAction::RunCrawlOnce)
            } else {
                (RunState::SustainedLoad, RunAction::RunLoad)
            }
        },
        (RunState::CrawlOnce, RunEvent::LoadFinished) | (
            RunState::SustainedLoad,
            RunEvent::LoadFinished,
        ) => (RunState::Reporting, RunAction::FinalizeAndReport),
        _ => (state, RunAction::Nothing),
    }
}

/// The state of a run after the events of `events`, from its start.
pub open spec fn state_after(events: Seq<RunEvent>, options: RunOptions) -> RunState
    decreases events.len(),
{
    if events.len() == 0 {
        RunState::SelectingSource
    } else {
        next(state_after(events.drop_last(), options), events.last(), options).0
    }
}

/// The number of times that the events of `events` had the statistics
/// closed and the report shown.
pub open spec fn reports_after(events: Seq<RunEvent>, options: RunOptions) -> nat
    decreases events.len(),
{
    if events.len() == 0 {
        0
    } else {
        let earlier = reports_after(events.drop_last(), options);
        if next(state_after(events.drop_last(), options), events.last(), options).1
            == RunAction::FinalizeAndReport {
            earlier + 1
        } else {
            earlier
        }
    }
}

/// Whatever happens and in whatever order, the statistics are closed and
/// the report is shown at most once; exactly once in a run that ends
/// after the load or on an interrupt, and never in one that could not
/// start.
pub proof fn lemma_one_report(events: Seq<RunEvent>, options: RunOptions)
    ensures
        reports_after(events, options) <= 1,
        reports_after(events, options) == 1 <==> (state_after(events, options)
            == RunState::Reporting || state_after(events, options) == RunState::Done),
    decreases events.len(),
{
    if events.len() > 0 {
        lemma_one_report(events.drop_last(), options);
    }
}

/// Some event of `events` told that discovery had ended with URLs.
pub open spec fn discovery_done(events: Seq<RunEvent>) -> bool {
    exists|i: int|
        0 <= i < events.len() && (#[trigger] events[i] matches RunEvent::Discovered(n) && n > 0)
}

/// True for the states in which the URLs are put under load.
pub open spec fn is_loading(state: RunState) -> bool {
    state == RunState::ExecutingLoad || state == RunState::CrawlOnce || state
        == RunState::SustainedLoad
}

/// Discovery comes first: whatever happens, the load is prepared and
/// run only after discovery has ended, and ended with URLs.
pub proof fn lemma_load_follows_discovery(events: Seq<RunEvent>, options: RunOptions)
    ensures
        is_loading(state_after(events, options)) ==> discovery_done(events),
    decreases events.len(),
{
    if events.len() > 0 {
        let earlier = events.drop_last();
        lemma_load_follows_discovery(earlier, options);
        if is_loading(state_after(events, options)) {
            if is_loading(state_after(earlier, options)) {
                let i = choose|i: int|
                    0 <= i < earlier.len() && (#[trigger] earlier[i] matches RunEvent::Discovered(n)
                        && n > 0);
                assert(events[i] == earlier[i]);
            } else {
                assert(events[events.len() - 1] == events.last());
            }
        }
    }
}

/// An interrupt leads to the report from every state in which the run
/// is neither over nor reporting already.
pub proof fn lemma_interrupt_reports(state: RunState, options: RunOptions)
    requires
        !is_terminal(state),
        state != RunState::Reporting,
    ensures
        next(state, RunEvent::Interrupted, options) == (
            RunState::Reporting,
            RunAction::FinalizeAndReport,
        ),
{
}

} // verus!
