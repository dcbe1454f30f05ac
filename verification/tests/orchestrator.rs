use warmer::orchestrator::{
    base_url, discovery_threads, discovery_threads_for, step, RunAction, RunEvent, RunOptions,
    RunState, StartupError, DEFAULT_CONCURRENCY, DEFAULT_DELAY,
};
use warmer::sitemap::SitemapError;

const SITEMAP_LOAD: RunOptions = RunOptions { follow_links: false, crawl: false };
const LINKS_CRAWL: RunOptions = RunOptions { follow_links: true, crawl: true };

/// The states passed and the actions asked for on `events`, from the
/// start of a run.
fn course(events: &[RunEvent], options: RunOptions) -> (Vec<RunState>, Vec<RunAction>) {
    let mut state = RunState::SelectingSource;
    let mut states = Vec::new();
    let mut actions = Vec::new();
    for e in events {
        let (next, action) = step(state, *e, options);
        state = next;
        states.push(next);
        actions.push(action);
    }
    (states, actions)
}

#[test]
fn defaults() {
    assert_eq!(DEFAULT_CONCURRENCY, 25);
    assert_eq!(DEFAULT_DELAY, 1);
    assert_eq!(base_url(None), "http://localhost");
    assert_eq!(base_url(Some("https://x.org")), "https://x.org");
}

#[test]
fn discovery_pool_is_half_the_cpus_between_two_and_eight() {
    assert_eq!(discovery_threads_for(None, 1), 2);
    assert_eq!(discovery_threads_for(None, 4), 2);
    assert_eq!(discovery_threads_for(None, 6), 3);
    assert_eq!(discovery_threads_for(None, 16), 8);
    assert_eq!(discovery_threads_for(None, 17), 8);
    assert_eq!(discovery_threads_for(None, 64), 8);
    assert_eq!(discovery_threads_for(Some(1), 64), 1);
    assert_eq!(discovery_threads_for(Some(40), 2), 40);
    assert!((2..=8).contains(&discovery_threads(None)));
    assert_eq!(discovery_threads(Some(11)), 11);
}

#[test]
fn sitemap_run_under_sustained_load() {
    let (states, actions) = course(
        &[
            RunEvent::Proceed,
            RunEvent::Discovered(12),
            RunEvent::Proceed,
            RunEvent::LoadFinished,
            RunEvent::Reported,
        ],
        SITEMAP_LOAD,
    );
    assert_eq!(
        states,
        vec![
            RunState::SitemapMode,
            RunState::ExecutingLoad,
            RunState::SustainedLoad,
            RunState::Reporting,
            RunState::Done,
        ]
    );
    assert_eq!(
        actions,
        vec![
            RunAction::ResolveSitemap,
            RunAction::Announce,
            RunAction::RunLoad,
            RunAction::FinalizeAndReport,
            RunAction::Exit,
        ]
    );
}

#[test]
fn follow_links_run_with_one_pass() {
    let (states, actions) = course(
        &[RunEvent::Proceed, RunEvent::Discovered(1), RunEvent::Proceed, RunEvent::LoadFinished],
        LINKS_CRAWL,
    );
    assert_eq!(
        states,
        vec![
            RunState::FollowLinksMode,
            RunState::ExecutingLoad,
            RunState::CrawlOnce,
            RunState::Reporting,
        ]
    );
    assert_eq!(
        actions,
        vec![
            RunAction::FollowLinks,
            RunAction::Announce,
            RunAction::RunCrawlOnce,
            RunAction::FinalizeAndReport,
        ]
    );
}

#[test]
fn follow_links_wins_over_sitemaps() {
    let options = RunOptions { follow_links: true, crawl: false };
    assert_eq!(
        step(RunState::SelectingSource, RunEvent::Proceed, options),
        (RunState::FollowLinksMode, RunAction::FollowLinks)
    );
    assert_eq!(
        step(RunState::ExecutingLoad, RunEvent::Proceed, options),
        (RunState::SustainedLoad, RunAction::RunLoad)
    );
}

#[test]
fn sitemap_failure_ends_the_run_without_report() {
    let (states, actions) = course(
        &[
            RunEvent::Proceed,
            RunEvent::SitemapFailed(SitemapError::NoSitemapFound),
            RunEvent::Interrupted,
            RunEvent::Reported,
        ],
        SITEMAP_LOAD,
    );
    assert_eq!(states[1..], [RunState::Aborted, RunState::Aborted, RunState::Aborted]);
    assert_eq!(
        actions,
        vec![
            RunAction::ResolveSitemap,
            RunAction::Fail(StartupError::Sitemap(SitemapError::NoSitemapFound)),
            RunAction::Nothing,
            RunAction::Nothing,
        ]
    );
}

#[test]
fn empty_discovery_ends_the_run_without_report() {
    let (states, actions) = course(&[RunEvent::Proceed, RunEvent::Discovered(0)], LINKS_CRAWL);
    assert_eq!(states[1], RunState::Aborted);
    assert_eq!(actions[1], RunAction::Fail(StartupError::NoUrls));
}

#[test]
fn follow_links_failure_ends_the_run() {
    let (states, actions) = course(&[RunEvent::Proceed, RunEvent::FollowLinksFailed], LINKS_CRAWL);
    assert_eq!(states[1], RunState::Aborted);
    assert_eq!(actions[1], RunAction::Fail(StartupError::FollowLinks));
}

#[test]
fn interrupt_reports_exactly_once() {
    let (states, actions) = course(
        &[
            RunEvent::Proceed,
            RunEvent::Discovered(3),
            RunEvent::Proceed,
            RunEvent::Interrupted,
            RunEvent::Interrupted,
            RunEvent::LoadFinished,
            RunEvent::Reported,
            RunEvent::Interrupted,
        ],
        SITEMAP_LOAD,
    );
    assert_eq!(
        states[3..],
        [
            RunState::Reporting,
            RunState::Reporting,
            RunState::Reporting,
            RunState::Done,
            RunState::Done,
        ]
    );
    assert_eq!(actions.iter().filter(|a| **a == RunAction::FinalizeAndReport).count(), 1);
    assert_eq!(actions[3], RunAction::FinalizeAndReport);
    assert_eq!(actions[6], RunAction::Exit);
}

#[test]
fn interrupt_during_discovery_reports() {
    for state in [
        RunState::SelectingSource,
        RunState::SitemapMode,
        RunState::FollowLinksMode,
        RunState::SingleUrlMode,
        RunState::ExecutingLoad,
        RunState::CrawlOnce,
        RunState::SustainedLoad,
    ] {
        assert_eq!(
            step(state, RunEvent::Interrupted, SITEMAP_LOAD),
            (RunState::Reporting, RunAction::FinalizeAndReport)
        );
    }
}

#[test]
fn events_that_do_not_concern_a_state_change_nothing() {
    assert_eq!(
        step(RunState::SitemapMode, RunEvent::LoadFinished, SITEMAP_LOAD),
        (RunState::SitemapMode, RunAction::Nothing)
    );
    assert_eq!(
        step(RunState::SitemapMode, RunEvent::FollowLinksFailed, SITEMAP_LOAD),
        (RunState::SitemapMode, RunAction::Nothing)
    );
    assert_eq!(
        step(RunState::SustainedLoad, RunEvent::Discovered(4), SITEMAP_LOAD),
        (RunState::SustainedLoad, RunAction::Nothing)
    );
    assert_eq!(
        step(RunState::SingleUrlMode, RunEvent::Discovered(1), SITEMAP_LOAD),
        (RunState::ExecutingLoad, RunAction::Announce)
    );
}

#[test]
fn startup_error_messages() {
    assert_eq!(
        StartupError::Sitemap(SitemapError::NoSitemapFound).message(),
        "Failed to load sitemap: No valid sitemaps found. Try using --follow-links option."
    );
    assert_eq!(
        StartupError::Sitemap(SitemapError::NoUrls).message(),
        "Failed to load sitemap: No URLs found in any sitemap. Try using --follow-links option."
    );
    assert_eq!(StartupError::FollowLinks.message(), "Failed to follow links");
    assert_eq!(StartupError::NoUrls.message(), "No URLs found to test");
}
