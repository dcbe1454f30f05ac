//! How the outcome of a request and the size of its answer are shown.

use crate::text::{joined, string_of, texts};
use vstd::prelude::*;

verus! {

/// How a status code is shown.
#[derive(Clone, Copy, Debug, PartialEq, Eq, Structural)]
pub enum StatusStyle {
    Green,
    Yellow,
    Red,
    RedBold,
    White,
}

/// Codes from 200 are shown green, from 300 yellow, from 400 red, from
/// 500 to 599 red and bold, and all others white.
pub open spec fn style_of(status_code: u16) -> StatusStyle {
    if 200 <= status_code <= 299 {
        StatusStyle::Green
    } else if 300 <= status_code <= 399 {
        StatusStyle::Yellow
    } else if 400 <= status_code <= 499 {
        StatusStyle::Red
    } else if 500 <= status_code <= 599 {
        StatusStyle::RedBold
    } else {
        StatusStyle::White
    }
}

/// How the status code `status_code` is shown.
pub fn status_style(status_code: u16) -> (style: StatusStyle)
    ensures
        style == style_of(status_code),
{
    if 200 <= status_code && status_code <= 299 {
        StatusStyle::Green
    } else if 300 <= status_code && status_code <= 399 {
        StatusStyle::Yellow
    } else if 400 <= status_code && status_code <= 499 {
        StatusStyle::Red
    } else if 500 <= status_code && status_code <= 599 {
        StatusStyle::RedBold
    } else {
        StatusStyle::White
    }
}

/// The character of the digit `d`.
pub open spec fn digit_char(d: nat) -> char {
    if d == 0 {
        '0'
    } else if d == 1 {
        '1'
    } else if d == 2 {
        '2'
    } else if d == 3 {
        '3'
    } else if d == 4 {
        '4'
    } else if d == 5 {
        '5'
    } else if d == 6 {
        '6'
    } else if d == 7 {
        '7'
    } else if d == 8 {
        '8'
    } else {
        '9'
    }
}

/// The number `n` written in decimal digits.
pub open spec fn decimal_text(n: nat) -> Seq<char>
    decreases n,
{
    if n < 10 {
        seq![digit_char(n)]
    } else {
        decimal_text(n / 10).push(digit_char(n % 10))
    }
}

/// The character of the digit `d`.
fn digit(d: u64) -> (c: char)
    requires
        d < 10,
    ensures
        c == digit_char(d as nat),
{
    if d == 0 {
        '0'
    } else if d == 1 {
        '1'
    } else if d == 2 {
        '2'
    } else if d == 3 {
        '3'
    } else if d == 4 {
        '4'
    } else if d == 5 {
        '5'
    } else if d == 6 {
        '6'
    } else if d == 7 {
        '7'
    } else if d == 8 {
        '8'
    } else {
        '9'
    }
}

/// The number `n` written in decimal digits.
pub fn decimal(n: u64) -> (out: String)
    ensures
        out@ == decimal_text(n as nat),
{
    let mut reversed: Vec<char> = Vec::new();
    let mut rest: u64 = n;
    reversed.push(digit(rest % 10));
    rest = rest / 10;
    while rest > 0
        invariant
            reversed.len() > 0,
            decimal_text(n as nat) == if rest == 0 {
                reversed@.reverse()
            } else {
                decimal_text(rest as nat) + reversed@.reverse()
            },
        decreases rest,
    {
        let ghost held = reversed@;
        reversed.push(digit(rest % 10));
        proof {
            let d = digit_char((rest % 10) as nat);
            assert(reversed@.reverse() =~= seq![d] + held.reverse());
            if rest < 10 {
                assert(decimal_text(rest as nat) + held.reverse() =~= reversed@.reverse());
            } else {
                assert(decimal_text(rest as nat) + held.reverse() =~= decimal_text(
                    (rest / 10) as nat,
                ) + reversed@.reverse());
            }
        }
        rest = rest / 10;
    }
    let mut digits: Vec<char> = Vec::new();
    let mut i: usize = reversed.len();
    while i > 0
        invariant
            i <= reversed.len(),
            digits@ == reversed@.reverse().subrange(0, reversed.len() - i),
        decreases i,
    {
        i -= 1;
        digits.push(reversed[i]);
        assert(reversed@.reverse().subrange(0, reversed.len() - i) =~= reversed@.reverse().subrange(
            0,
            reversed.len() - i - 1,
        ).push(reversed@[i as int]));
    }
    assert(reversed@.reverse().subrange(0, reversed.len() as int) =~= reversed@.reverse());
    string_of(&digits)
}

/// `n / d` rounded to the nearest whole number, and to the even one of
/// two that are equally near.
pub open spec fn rounded(n: nat, d: nat) -> nat
    recommends
        d > 0,
{
    let q = n / d;
    let r = n % d;
    if 2 * r > d || (2 * r == d && q % 2 == 1) {
        q + 1
    } else {
        q
    }
}

/// `n / d` rounded to the nearest whole number, and to the even one of
/// two that are equally near.
pub fn round_div(n: u64, d: u64) -> (q: u64)
    requires
        0 < d,
    ensures
        q == rounded(n as nat, d as nat),
{
    let q = n / d;
    let r = n % d;
    assert(d > 1 ==> q < u64::MAX) by (nonlinear_arith)
        requires
            q == n / d,
            d > 0,
            n <= u64::MAX,
    ;
    if r > d - r || (r == d - r && q % 2 == 1) {
        q + 1
    } else {
        q
    }
}

/// The size `bytes` as it is shown: in bytes below 1024, in KB below
/// 1024 KB and else in MB, rounded to whole units.
pub open spec fn data_size_text(bytes: nat) -> Seq<char> {
    if bytes < 1024 {
        decimal_text(bytes) + " bytes"@
    } else if bytes < 1024 * 1024 {
        decimal_text(rounded(bytes, 1024)) + " KB"@
    } else {
        decimal_text(rounded(bytes, 1024 * 1024)) + " MB"@
    }
}

/// The size `bytes` as it is shown.
pub fn format_data_size(bytes: u64) -> (out: String)
    ensures
        out@ == data_size_text(bytes as nat),
{
    if bytes < 1024 {
        joined(decimal(bytes).as_str(), " bytes")
    } else if bytes < 1024 * 1024 {
        joined(decimal(round_div(bytes, 1024)).as_str(), " KB")
    } else {
        joined(decimal(round_div(bytes, 1024 * 1024)).as_str(), " MB")
    }
}

/// What a run is said to be aimed at: the one URL of a list of one, and
/// else the number of URLs.
pub open spec fn target_text(urls: Seq<Seq<char>>) -> Seq<char> {
    if urls.len() == 1 {
        urls[0]
    } else {
        decimal_text(urls.len()) + " URLs from sitemap"@
    }
}

/// What a run over `urls` is said to be aimed at.
pub fn display_target(urls: &Vec<String>) -> (out: String)
    ensures
        out@ == target_text(texts(urls@)),
{
    if urls.len() == 1 {
        urls[0].clone()
    } else {
        joined(decimal(urls.len() as u64).as_str(), " URLs from sitemap")
    }
}

} // verus!
