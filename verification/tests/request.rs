use warmer::request::{
    content_length, get_random_user_agent, outcome_of_failure, outcome_of_response, user_agent,
    version_label, wants_body, HttpVersion, USER_AGENT_COUNT,
};

#[test]
fn user_agents_name_the_tool() {
    assert_eq!(USER_AGENT_COUNT, 13);
    for i in 0..USER_AGENT_COUNT {
        assert!(user_agent(i).ends_with("+warmer (https://abh.ai/warmer)"));
        for j in 0..i {
            assert_ne!(user_agent(i), user_agent(j));
        }
    }
    assert_eq!(user_agent(10), "curl/7.68.0 +warmer (https://abh.ai/warmer)");
    assert_eq!(user_agent(12), "Python-urllib/3.8 +warmer (https://abh.ai/warmer)");
    assert_eq!(
        user_agent(0),
        "Mozilla/5.0 (Windows NT 10.0; Win64; x64) AppleWebKit/537.36 (KHTML, like Gecko) Chrome/140.0.0.0 Safari/537.36 +warmer (https://abh.ai/warmer)"
    );
}

#[test]
fn random_user_agent_is_one_of_the_list() {
    let mut seen = [false; 13];
    for _ in 0..2000 {
        let agent = get_random_user_agent();
        let i = (0..USER_AGENT_COUNT).find(|i| user_agent(*i) == agent);
        assert!(i.is_some());
        seen[i.unwrap()] = true;
    }
    assert!(seen.iter().filter(|s| **s).count() > 1);
}

#[test]
fn version_labels() {
    assert_eq!(version_label(HttpVersion::Http09), "HTTP/0.9");
    assert_eq!(version_label(HttpVersion::Http10), "HTTP/1.0");
    assert_eq!(version_label(HttpVersion::Http11), "HTTP/1.1");
    assert_eq!(version_label(HttpVersion::Http2), "HTTP/2.0");
    assert_eq!(version_label(HttpVersion::Http3), "HTTP/3.0");
    assert_eq!(version_label(HttpVersion::Other), "HTTP/1.1");
}

#[test]
fn body_counts_only_for_status_200() {
    assert!(wants_body(200));
    assert!(!wants_body(201));
    assert!(!wants_body(0));
    let o = outcome_of_response(200, Some("héllo".to_string()), 12, HttpVersion::Http2);
    assert_eq!(o.status_code, 200);
    assert_eq!(o.response_time, 12);
    assert_eq!(o.data_size, 6);
    assert_eq!(o.html_content, Some("héllo".to_string()));
    assert_eq!(o.http_version, HttpVersion::Http2);
    let o = outcome_of_response(404, Some("not found".to_string()), 3, HttpVersion::Http11);
    assert_eq!(o.status_code, 404);
    assert_eq!(o.data_size, 0);
    assert_eq!(o.html_content, None);
    let o = outcome_of_response(200, None, 3, HttpVersion::Http11);
    assert_eq!(o.data_size, 0);
    assert_eq!(o.html_content, None);
}

#[test]
fn failed_request_has_status_zero_and_no_bytes() {
    let o = outcome_of_failure(250);
    assert_eq!(o.status_code, 0);
    assert_eq!(o.response_time, 250);
    assert_eq!(o.data_size, 0);
    assert_eq!(o.html_content, None);
    assert_eq!(version_label(o.http_version), "HTTP/1.1");
}

#[test]
fn announced_content_length() {
    assert_eq!(content_length(Some("1234")), 1234);
    assert_eq!(content_length(Some("+8")), 8);
    assert_eq!(content_length(Some("0")), 0);
    assert_eq!(content_length(Some("12 ")), 0);
    assert_eq!(content_length(Some("chunked")), 0);
    assert_eq!(content_length(Some("")), 0);
    assert_eq!(content_length(Some("99999999999999999999999")), 0);
    assert_eq!(content_length(None), 0);
}

#[test]
fn outcome_becomes_a_transaction_that_is_recorded() {
    let outcome = outcome_of_response(200, Some("abc".to_string()), 40, HttpVersion::Http11);
    let t = outcome.transaction("https://x/", true);
    assert_eq!(t.url, "https://x/");
    assert_eq!(t.status_code, 200);
    assert_eq!(t.response_time, 40);
    assert_eq!(t.data_size, 3);
    assert!(t.is_main);
    let failed = outcome_of_failure(9).transaction("https://x/a.css", false);
    assert!(!failed.is_main);
    let mut stats = warmer::stats::Stats::new();
    stats.record(&t);
    stats.record(&failed);
    assert_eq!(stats.transactions(), 2);
    assert_eq!(stats.successful_transactions(), 1);
    assert_eq!(stats.failed_transactions(), 1);
    assert_eq!(stats.data_transferred(), 3);
    assert_eq!(stats.response_times(), &vec![40, 9]);
}
