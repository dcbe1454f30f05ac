use warmer::crawl::CrawlPass;

fn strings(xs: &[&str]) -> Vec<String> {
    xs.iter().map(|x| x.to_string()).collect()
}

fn visits(urls: &[&str]) -> Vec<String> {
    let mut pass = CrawlPass::new(&strings(urls));
    let mut out = Vec::new();
    while let Some(url) = pass.next() {
        assert!(out.len() <= urls.len());
        out.push(url);
    }
    assert_eq!(pass.processed(), &out);
    assert_eq!(pass.next(), None);
    out
}

#[test]
fn each_url_is_visited_once_in_list_order() {
    assert_eq!(visits(&["b", "a", "b", "c", "a", "a"]), strings(&["b", "a", "c"]));
}

#[test]
fn pass_over_distinct_urls_visits_all() {
    assert_eq!(visits(&["1", "2", "3"]), strings(&["1", "2", "3"]));
}

#[test]
fn pass_over_nothing_visits_nothing() {
    assert_eq!(visits(&[]), Vec::<String>::new());
}

#[test]
fn pass_over_repeats_of_one_url_visits_it_once() {
    assert_eq!(visits(&["x", "x", "x"]), strings(&["x"]));
}
