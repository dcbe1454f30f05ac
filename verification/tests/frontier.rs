use warmer::frontier::{contains_text, Frontier, WorkerStep};

fn s(x: &str) -> String {
    x.to_string()
}

fn strings(xs: &[&str]) -> Vec<String> {
    xs.iter().map(|x| x.to_string()).collect()
}

/// The links of each page of a site in which every page links to every
/// page, itself included.
fn full_site(pages: &[&str]) -> Vec<(String, Vec<String>)> {
    pages.iter().map(|p| (p.to_string(), strings(pages))).collect()
}

fn links_of(site: &[(String, Vec<String>)], url: &str) -> Vec<String> {
    for (page, links) in site {
        if page == url {
            return links.clone();
        }
    }
    Vec::new()
}

#[derive(Clone, PartialEq, Debug)]
enum Phase {
    Ready,
    Fetching(String),
    Sleeping,
    Exited,
}

/// Runs `workers` discovery workers over `site`, one move at a time, the
/// worker to move picked by `pick`. Returns the fetches made, in order.
fn run_workers(
    frontier: &mut Frontier,
    site: &[(String, Vec<String>)],
    workers: usize,
    mut pick: impl FnMut(usize) -> usize,
) -> Vec<String> {
    let mut phases = vec![Phase::Ready; workers];
    let mut fetched = Vec::new();
    let mut moves = 0usize;
    while phases.iter().any(|p| *p != Phase::Exited) {
        moves += 1;
        assert!(moves < 100_000, "the workers do not come to an end");
        let w = pick(moves) % workers;
        let phase = phases[w].clone();
        match phase {
            Phase::Ready => match frontier.next_step() {
                WorkerStep::Process(url) => phases[w] = Phase::Fetching(url),
                WorkerStep::Skip => {}
                WorkerStep::Wait => phases[w] = Phase::Sleeping,
                WorkerStep::Terminate => phases[w] = Phase::Exited,
            },
            Phase::Fetching(url) => {
                fetched.push(url.clone());
                frontier.record_page(&links_of(site, &url), &Vec::new());
                phases[w] = Phase::Ready;
            }
            Phase::Sleeping => {
                frontier.wake();
                phases[w] = Phase::Ready;
            }
            Phase::Exited => {}
        }
    }
    fetched
}

#[test]
fn new_frontier_hands_out_the_start_page() {
    let mut f = Frontier::new("https://x/", 3);
    assert_eq!(f.active_workers(), 3);
    assert_eq!(f.queued(), 1);
    match f.next_step() {
        WorkerStep::Process(url) => assert_eq!(url, "https://x/"),
        other => panic!("unexpected step {:?}", other),
    }
    assert_eq!(f.visited(), &strings(&["https://x/"]));
    assert_eq!(f.queued(), 0);
}

#[test]
fn links_are_queued_once() {
    let mut f = Frontier::new("https://x/", 1);
    let _ = f.next_step();
    f.record_page(
        &strings(&["https://x/a", "https://x/a", "https://x/b"]),
        &strings(&["https://x/s.css", "https://x/s.css"]),
    );
    assert_eq!(f.discovered_urls(), &strings(&["https://x/", "https://x/a", "https://x/b"]));
    assert_eq!(f.discovered_assets(), &strings(&["https://x/s.css"]));
    assert_eq!(f.queued(), 2);
    f.record_page(&strings(&["https://x/b", "https://x/c"]), &Vec::new());
    assert_eq!(f.queued(), 3);
    assert_eq!(
        f.discovered_urls(),
        &strings(&["https://x/", "https://x/a", "https://x/b", "https://x/c"])
    );
}

#[test]
fn start_page_counts_as_discovered_and_is_not_queued_again() {
    let mut f = Frontier::new("https://x/", 1);
    assert_eq!(f.discovered_urls(), &strings(&["https://x/"]));
    assert!(matches!(f.next_step(), WorkerStep::Process(_)));
    f.record_page(&strings(&["https://x/"]), &Vec::new());
    assert_eq!(f.queued(), 0);
    assert_eq!(f.discovered_urls(), &strings(&["https://x/"]));
    assert!(matches!(f.next_step(), WorkerStep::Terminate));
    assert_eq!(f.visited().len(), 1);
}

#[test]
fn pages_are_handed_out_in_queue_order() {
    let mut f = Frontier::new("https://x/", 2);
    assert!(matches!(f.next_step(), WorkerStep::Process(_)));
    f.record_page(&strings(&["https://x/a"]), &Vec::new());
    assert!(matches!(f.next_step(), WorkerStep::Process(_)));
    assert_eq!(f.visited(), &strings(&["https://x/", "https://x/a"]));
    assert!(matches!(f.next_step(), WorkerStep::Wait));
}

#[test]
fn discovery_of_a_single_page_returns_the_start_page() {
    let site = vec![(s("http://h/"), Vec::new())];
    let mut f = Frontier::new("http://h/", 1);
    let fetched = run_workers(&mut f, &site, 1, |m| m);
    assert_eq!(fetched, strings(&["http://h/"]));
    assert!(f.is_converged());
    assert_eq!(f.discovered(), strings(&["http://h/"]));
}

#[test]
fn discovery_of_a_chain_returns_start_and_what_lies_behind() {
    let site = vec![
        (s("http://h/"), strings(&["http://h/a"])),
        (s("http://h/a"), strings(&["http://h/b"])),
        (s("http://h/b"), Vec::new()),
    ];
    let mut f = Frontier::new("http://h/", 1);
    let fetched = run_workers(&mut f, &site, 1, |m| m);
    assert_eq!(fetched, strings(&["http://h/", "http://h/a", "http://h/b"]));
    assert_eq!(f.discovered(), strings(&["http://h/", "http://h/a", "http://h/b"]));
}

#[test]
fn discovered_pages_share_the_host_of_the_start_page() {
    let site = vec![
        (s("http://h/"), strings(&["http://h/a", "http://other/x", "https://h/b"])),
        (s("http://h/a"), strings(&["http://elsewhere/", "http://h/"])),
        (s("https://h/b"), strings(&["http://h/c"])),
    ];
    let mut f = Frontier::new("http://h/", 3);
    let _ = run_workers(&mut f, &site, 3, |m| m * 7 + 1);
    let found = f.discovered();
    assert_eq!(found, strings(&["http://h/", "http://h/a", "http://h/c", "https://h/b"]));
    for url in &found {
        assert_eq!(warmer::urls::extract_domain(url), Some("h".to_string()));
    }
}

#[test]
fn empty_queue_makes_worker_wait_while_others_are_active() {
    let mut f = Frontier::new("https://x/", 2);
    assert!(matches!(f.next_step(), WorkerStep::Process(_)));
    assert!(matches!(f.next_step(), WorkerStep::Wait));
    assert_eq!(f.active_workers(), 1);
    f.wake();
    assert_eq!(f.active_workers(), 2);
    assert!(!f.is_converged());
}

#[test]
fn last_active_worker_terminates() {
    let mut f = Frontier::new("https://x/", 2);
    assert!(matches!(f.next_step(), WorkerStep::Process(_)));
    f.record_page(&Vec::new(), &Vec::new());
    assert!(matches!(f.next_step(), WorkerStep::Wait));
    assert!(matches!(f.next_step(), WorkerStep::Terminate));
    assert_eq!(f.active_workers(), 0);
    assert!(f.is_converged());
    assert!(matches!(f.next_step(), WorkerStep::Terminate));
    assert_eq!(f.active_workers(), 0);
}

#[test]
fn wake_never_counts_more_workers_than_there_are() {
    let mut f = Frontier::new("https://x/", 2);
    f.wake();
    assert_eq!(f.active_workers(), 2);
}

#[test]
fn each_page_is_fetched_exactly_once() {
    let pages = ["https://x/", "https://x/a", "https://x/b", "https://x/c", "https://x/d"];
    let site = full_site(&pages);
    let mut f = Frontier::new("https://x/", 3);
    let mut seed: u64 = 12345;
    let fetched = run_workers(&mut f, &site, 3, |_| {
        seed = seed.wrapping_mul(6364136223846793005).wrapping_add(1442695040888963407);
        (seed >> 33) as usize
    });
    for page in pages {
        assert_eq!(fetched.iter().filter(|u| u.as_str() == page).count(), 1);
    }
    assert_eq!(fetched.len(), pages.len());
    let mut reported = fetched.clone();
    reported.sort();
    let mut handed_out = f.visited().clone();
    handed_out.sort();
    assert_eq!(reported, handed_out);
}

#[test]
fn discovery_terminates_with_the_whole_site() {
    let pages = ["https://x/", "https://x/1", "https://x/2", "https://x/3"];
    let site = full_site(&pages);
    for workers in 1..6 {
        let mut f = Frontier::new("https://x/", workers);
        let _ = run_workers(&mut f, &site, workers, |m| m);
        assert!(f.is_converged());
        let mut found = f.discovered_urls().clone();
        found.sort();
        assert_eq!(found, strings(&pages));
        assert_eq!(f.discovered(), strings(&pages));
    }
}

#[test]
fn discovery_of_a_chain_finds_every_page_behind_the_start() {
    let site = vec![
        (s("https://x/"), strings(&["https://x/1"])),
        (s("https://x/1"), strings(&["https://x/2"])),
        (s("https://x/2"), strings(&[])),
    ];
    let mut f = Frontier::new("https://x/", 2);
    let fetched = run_workers(&mut f, &site, 2, |m| m / 2);
    assert_eq!(fetched, strings(&["https://x/", "https://x/1", "https://x/2"]));
    assert_eq!(f.discovered_urls(), &strings(&["https://x/", "https://x/1", "https://x/2"]));
}

#[test]
fn discovered_is_sorted_union_without_repeats() {
    let mut f = Frontier::new("https://x/", 1);
    let _ = f.next_step();
    f.record_page(
        &strings(&["https://x/b", "https://x/a"]),
        &strings(&["https://x/z.js", "https://x/a", "https://x/c.css"]),
    );
    assert_eq!(
        f.discovered(),
        strings(&["https://x/", "https://x/a", "https://x/b", "https://x/c.css", "https://x/z.js"])
    );
}

#[test]
fn contains_text_compares_contents() {
    let list = strings(&["a", "bc"]);
    assert!(contains_text(&list, &s("bc")));
    assert!(!contains_text(&list, &s("b")));
}

#[test]
fn links_off_the_start_host_are_dropped() {
    let mut f = Frontier::new("https://x.org/", 1);
    let _ = f.next_step();
    f.record_page(
        &strings(&[
            "https://x.org/in",
            "https://y.org/out",
            "http://x.org/plain",
            "https://sub.x.org/deeper",
            "not a url",
        ]),
        &strings(&["https://cdn.y.org/lib.js"]),
    );
    assert_eq!(
        f.discovered_urls(),
        &strings(&["https://x.org/", "https://x.org/in", "http://x.org/plain"])
    );
    assert_eq!(f.discovered_assets(), &strings(&["https://cdn.y.org/lib.js"]));
    assert_eq!(f.queued(), 2);
}

#[test]
fn discovery_from_what_is_no_url_is_held_to_localhost() {
    let mut f = Frontier::new("start", 1);
    let _ = f.next_step();
    f.record_page(&strings(&["http://localhost/a", "https://x.org/b", "relative"]), &Vec::new());
    assert_eq!(f.discovered_urls(), &strings(&["start", "http://localhost/a"]));
    assert_eq!(f.discovered(), strings(&["http://localhost/a", "start"]));
}
