//! What is sent with a request and what is kept of its answer.

use crate::duration::{number, parse_decimal};
use crate::load::random_in;
use vstd::prelude::*;
use vstd::string::StringSliceAdditionalSpecFns;

verus! {

/// What every request says it accepts.
pub const ACCEPT: &'static str = "text/html,application/xhtml+xml,application/xml;q=0.9,*/*;q=0.8";

/// The languages that every request asks for.
pub const ACCEPT_LANGUAGE: &'static str = "en-US,en;q=0.9";

/// The encodings that every request accepts.
pub const ACCEPT_ENCODING: &'static str = "gzip, deflate";

/// What every request asks of the connection.
pub const CONNECTION: &'static str = "keep-alive";

/// The number of user agents to draw from.
pub const USER_AGENT_COUNT: usize = 13;

/// The user agents that requests go out under.
pub open spec fn agent_text(i: int) -> Seq<char> {
    if i == 0 {
        "Mozilla/5.0 (Windows NT 10.0; Win64; x64) AppleWebKit/537.36 (KHTML, like Gecko) Chrome/140.0.0.0 Safari/537.36 +warmer (https://abh.ai/warmer)"@
    } else if i == 1 {
        "Mozilla/5.0 (Macintosh; Intel Mac OS X 10_15_7) AppleWebKit/537.36 (KHTML, like Gecko) Chrome/140.0.0.0 Safari/537.36 +warmer (https://abh.ai/warmer)"@
    } else if i == 2 {
        "Mozilla/5.0 (X11; Linux x86_64) AppleWebKit/537.36 (KHTML, like Gecko) Chrome/140.0.0.0 Safari/537.36 +warmer (https://abh.ai/warmer)"@
    } else if i == 3 {
        "Mozilla/5.0 (Windows NT 10.0; Win64; x64; rv:109.0) Gecko/20100101 Firefox/121.0 +warmer (https://abh.ai/warmer)"@
    } else if i == 4 {
        "Mozilla/5.0 (Macintosh; Intel Mac OS X 10.15; rv:109.0) Gecko/20100101 Firefox/121.0 +warmer (https://abh.ai/warmer)"@
    } else if i == 5 {
        "Mozilla/5.0 (X11; Linux x86_64; rv:109.0) Gecko/20100101 Firefox/121.0 +warmer (https://abh.ai/warmer)"@
    } else if i == 6 {
        "Mozilla/5.0 (Macintosh; Intel Mac OS X 10_15_7) AppleWebKit/605.1.15 (KHTML, like Gecko) Version/17.1 Safari/605.1.15 +warmer (https://abh.ai/warmer)"@
    } else if i == 7 {
        "Mozilla/5.0 (Windows NT 10.0; Win64; x64) AppleWebKit/537.36 (KHTML, like Gecko) Chrome/120.0.0.0 Safari/537.36 Edg/120.0.0.0 +warmer (https://abh.ai/warmer)"@
    } else if i == 8 {
        "Mozilla/5.0 (Macintosh; Intel Mac OS X 10_15_7) AppleWebKit/537.36 (KHTML, like Gecko) Chrome/120.0.0.0 Safari/537.36 Edg/120.0.0.0 +warmer (https://abh.ai/warmer)"@
    } else if i == 9 {
        "Mozilla/5.0 (X11; Linux x86_64) AppleWebKit/537.36 (KHTML, like Gecko) Chrome/140.0.0.0 Safari/537.36 OPR/129.0.0.0 +warmer (https://abh.ai/warmer)"@
    } else if i == 10 {
        "curl/7.68.0 +warmer (https://abh.ai/warmer)"@
    } else if i == 11 {
        "wget/1.20.3 +warmer (https://abh.ai/warmer)"@
    } else {
        "Python-urllib/3.8 +warmer (https://abh.ai/warmer)"@
    }
}

/// The user agent of number `i`.
pub fn user_agent(i: usize) -> (agent: &'static str)
    requires
        i < USER_AGENT_COUNT,
    ensures
        agent@ == agent_text(i as int),
{
    if i == 0 {
        "Mozilla/5.0 (Windows NT 10.0; Win64; x64) AppleWebKit/537.36 (KHTML, like Gecko) Chrome/140.0.0.0 Safari/537.36 +warmer (https://abh.ai/warmer)"
    } else if i == 1 {
        "Mozilla/5.0 (Macintosh; Intel Mac OS X 10_15_7) AppleWebKit/537.36 (KHTML, like Gecko) Chrome/140.0.0.0 Safari/537.36 +warmer (https://abh.ai/warmer)"
    } else if i == 2 {
        "Mozilla/5.0 (X11; Linux x86_64) AppleWebKit/537.36 (KHTML, like Gecko) Chrome/140.0.0.0 Safari/537.36 +warmer (https://abh.ai/warmer)"
    } else if i == 3 {
        "Mozilla/5.0 (Windows NT 10.0; Win64; x64; rv:109.0) Gecko/20100101 Firefox/121.0 +warmer (https://abh.ai/warmer)"
    } else if i == 4 {
        "Mozilla/5.0 (Macintosh; Intel Mac OS X 10.15; rv:109.0) Gecko/20100101 Firefox/121.0 +warmer (https://abh.ai/warmer)"
    } else if i == 5 {
        "Mozilla/5.0 (X11; Linux x86_64; rv:109.0) Gecko/20100101 Firefox/121.0 +warmer (https://abh.ai/warmer)"
    } else if i == 6 {
        "Mozilla/5.0 (Macintosh; Intel Mac OS X 10_15_7) AppleWebKit/605.1.15 (KHTML, like Gecko) Version/17.1 Safari/605.1.15 +warmer (https://abh.ai/warmer)"
    } else if i == 7 {
        "Mozilla/5.0 (Windows NT 10.0; Win64; x64) AppleWebKit/537.36 (KHTML, like Gecko) Chrome/120.0.0.0 Safari/537.36 Edg/120.0.0.0 +warmer (https://abh.ai/warmer)"
    } else if i == 8 {
        "Mozilla/5.0 (Macintosh; Intel Mac OS X 10_15_7) AppleWebKit/537.36 (KHTML, like Gecko) Chrome/120.0.0.0 Safari/537.36 Edg/120.0.0.0 +warmer (https://abh.ai/warmer)"
    } else if i == 9 {
        "Mozilla/5.0 (X11; Linux x86_64) AppleWebKit/537.36 (KHTML, like Gecko) Chrome/140.0.0.0 Safari/537.36 OPR/129.0.0.0 +warmer (https://abh.ai/warmer)"
    } else if i == 10 {
        "curl/7.68.0 +warmer (https://abh.ai/warmer)"
    } else if i == 11 {
        "wget/1.20.3 +warmer (https://abh.ai/warmer)"
    } else {
        "Python-urllib/3.8 +warmer (https://abh.ai/warmer)"
    }
}

/// One of the user agents, drawn at random.
pub fn get_random_user_agent() -> (agent: &'static str)
    ensures
        exists|i: int| 0 <= i < USER_AGENT_COUNT && agent@ == agent_text(i),
{
    let i = random_in(0, 12) as usize;
    user_agent(i)
}

/// The protocol version of an answer.
#[derive(Clone, Copy, Debug, PartialEq, Eq, Structural)]
pub enum HttpVersion {
    Http09,
    Http10,
    Http11,
    Http2,
    Http3,
    /// A version that has no name here.
    Other,
}

/// The label that an answer of version `version` is shown under. A
/// version without a name is shown as HTTP/1.1.
pub fn version_label(version: HttpVersion) -> (label: &'static str)
    ensures
        label@ == match version {
            HttpVersion::Http09 => "HTTP/0.9"@,
            HttpVersion::Http10 => "HTTP/1.0"@,
            HttpVersion::Http11 => "HTTP/1.1"@,
            HttpVersion::Http2 => "HTTP/2.0"@,
            HttpVersion::Http3 => "HTTP/3.0"@,
            HttpVersion::Other => "HTTP/1.1"@,
        },
{
    match version {
        HttpVersion::Http09 => "HTTP/0.9",
        HttpVersion::Http10 => "HTTP/1.0",
        HttpVersion::Http11 => "HTTP/1.1",
        HttpVersion::Http2 => "HTTP/2.0",
        HttpVersion::Http3 => "HTTP/3.0",
        HttpVersion::Other => "HTTP/1.1",
    }
}

/// True when the body of an answer with this status code is read.
pub fn wants_body(status_code: u16) -> (b: bool)
    ensures
        b == (status_code == 200),
{
    status_code == 200
}

/// What is kept of one request.
#[derive(Debug)]
pub struct RequestOutcome {
    /// The status code of the answer; 0 where there was none.
    pub status_code: u16,
    /// The milliseconds that the request took.
    pub response_time: u64,
    /// The bytes of the body that was read.
    pub data_size: u64,
    /// The body, where the answer had status 200 and could be read.
    pub html_content: Option<String>,
    /// The protocol version of the answer.
    pub http_version: HttpVersion,
}

/// One request and its outcome, as it is recorded.
#[derive(Debug)]
pub struct Transaction {
    /// The URL that was asked for.
    pub url: String,
    /// The status code of the answer; 0 where there was none.
    pub status_code: u16,
    /// The milliseconds that the request took.
    pub response_time: u64,
    /// The bytes of the body that was read.
    pub data_size: u64,
    /// Whether a page was asked for, and not an asset of one.
    pub is_main: bool,
}

impl RequestOutcome {
    /// The record of the request for `url` that had this outcome.
    pub fn transaction(&self, url: &str, is_main: bool) -> (t: Transaction)
        ensures
            t.url@ == url@,
            t.status_code == self.status_code,
            t.response_time == self.response_time,
            t.data_size == self.data_size,
            t.is_main == is_main,
    {
        Transaction {
            url: url.to_owned(),
            status_code: self.status_code,
            response_time: self.response_time,
            data_size: self.data_size,
            is_main,
        }
    }
}

/// The bytes that a body counts for: its length in UTF-8, as the
/// machine's word holds it.
pub open spec fn body_size(text: Seq<char>) -> u64 {
    (vstd::utf8::encode_utf8(text).len() as usize) as u64
}

/// What is kept of a request that was answered with `status_code` after
/// `response_time` milliseconds. The body counts only for an answer with
/// status 200.
pub fn outcome_of_response(
    status_code: u16,
    body: Option<String>,
    response_time: u64,
    http_version: HttpVersion,
) -> (o: RequestOutcome)
    ensures
        o.status_code == status_code,
        o.response_time == response_time,
        o.http_version == http_version,
        match body {
            Some(text) => if status_code == 200 {
                o.html_content == Some(text) && o.data_size == body_size(text@)
            } else {
                o.html_content is None && o.data_size == 0
            },
            None => o.html_content is None && o.data_size == 0,
        },
{
    match body {
        Some(text) => {
            if status_code == 200 {
                let data_size: u64 = text.as_str().len() as u64;
                RequestOutcome {
                    status_code,
                    response_time,
                    data_size,
                    html_content: Some(text),
                    http_version,
                }
            } else {
                RequestOutcome {
                    status_code,
                    response_time,
                    data_size: 0,
                    html_content: None,
                    http_version,
                }
            }
        },
        None => RequestOutcome {
            status_code,
            response_time,
            data_size: 0,
            html_content: None,
            http_version,
        },
    }
}

/// What is kept of a request that failed before any answer, after
/// `response_time` milliseconds: status code 0 and no bytes.
pub fn outcome_of_failure(response_time: u64) -> (o: RequestOutcome)
    ensures
        o.status_code == 0,
        o.response_time == response_time,
        o.data_size == 0,
        o.html_content is None,
        o.http_version == HttpVersion::Http11,
{
    RequestOutcome {
        status_code: 0,
        response_time,
        data_size: 0,
        html_content: None,
        http_version: HttpVersion::Http11,
    }
}

/// The bytes that an answer announces: the number in its
/// `content-length` header, and 0 where the header is absent, is no
/// number or does not fit in 64 bits.
pub open spec fn announced_size(header: Option<Seq<char>>) -> nat {
    match header {
        Some(text) => match number(text) {
            Some(n) => if n <= u64::MAX {
                n
            } else {
                0
            },
            None => 0,
        },
        None => 0,
    }
}

/// The bytes that an answer with this `content-length` header announces.
pub fn content_length(header: Option<&str>) -> (n: u64)
    ensures
        n == announced_size(
            match header {
                Some(text) => Some(text@),
                None => None,
            },
        ),
{
    match header {
        Some(text) => match parse_decimal(text) {
            Some(n) => n,
            None => 0,
        },
        None => 0,
    }
}

} // verus!
