//! The length of a run as the command line gives it: a whole number
//! followed by `S`, `M` or `H`, in either case.

use crate::text::chars_of;
use vstd::prelude::*;

verus! {

/// Why a text is no duration.
#[derive(Clone, Copy, Debug, PartialEq, Eq, Structural)]
pub enum DurationError {
    /// The text does not end in a unit.
    InvalidFormat,
    /// What stands before the unit is no number, or the duration does not
    /// fit in 64 bits of seconds.
    InvalidNumber,
}

impl DurationError {
    /// The words that tell the user what was wrong.
    pub fn message(&self) -> (text: &'static str)
        ensures
            text@ == match self {
                DurationError::InvalidFormat => "Invalid time format. Use format like 5S, 1M, 1H"@,
                DurationError::InvalidNumber => "Invalid number in time format"@,
            },
    {
        match self {
            DurationError::InvalidFormat => "Invalid time format. Use format like 5S, 1M, 1H",
            DurationError::InvalidNumber => "Invalid number in time format",
        }
    }
}

/// The seconds in the unit that `c` names, if it names one.
pub open spec fn unit_seconds(c: char) -> Option<nat> {
    if c == 'S' || c == 's' {
        Some(1)
    } else if c == 'M' || c == 'm' {
        Some(60)
    } else if c == 'H' || c == 'h' {
        Some(3600)
    } else {
        None
    }
}

/// True when `c` is one of the digits `0` to `9`.
pub open spec fn is_digit(c: char) -> bool {
    48 <= c as u32 <= 57
}

/// The number that a run of digits writes.
pub open spec fn digits_value(s: Seq<char>) -> nat
    decreases s.len(),
{
    if s.len() == 0 {
        0
    } else {
        digits_value(s.drop_last()) * 10 + (s.last() as u32 - 48) as nat
    }
}

/// The digits of a number text: the text itself, or what follows its
/// plus sign.
pub open spec fn digits_of(s: Seq<char>) -> Seq<char> {
    if s.len() > 0 && s[0] == '+' {
        s.skip(1)
    } else {
        s
    }
}

/// The number that `s` writes: one or more digits, which a plus sign may
/// precede. Nothing else is a number.
pub open spec fn number(s: Seq<char>) -> Option<nat> {
    let digits = digits_of(s);
    if digits.len() > 0 && (forall|i: int| 0 <= i < digits.len() ==> is_digit(#[trigger] digits[i])) {
        Some(digits_value(digits))
    } else {
        None
    }
}

/// The seconds that `s` stands for, or why it stands for none.
pub open spec fn duration_of(s: Seq<char>) -> Result<u64, DurationError> {
    if s.len() == 0 {
        Err(DurationError::InvalidFormat)
    } else {
        match unit_seconds(s.last()) {
            None => Err(DurationError::InvalidFormat),
            Some(unit) => match number(s.drop_last()) {
                None => Err(DurationError::InvalidNumber),
                Some(n) => if n * unit <= u64::MAX {
                    Ok((n * unit) as u64)
                } else {
                    Err(DurationError::InvalidNumber)
                },
            },
        }
    }
}

/// A longer run of digits writes no smaller a number.
proof fn lemma_digits_grow(s: Seq<char>, n: int)
    requires
        0 <= n <= s.len(),
    ensures
        digits_value(s.subrange(0, n)) <= digits_value(s),
    decreases s.len() - n,
{
    if n < s.len() {
        lemma_digits_grow(s, n + 1);
        assert(s.subrange(0, n + 1).drop_last() =~= s.subrange(0, n));
    } else {
        assert(s.subrange(0, n) =~= s);
    }
}

/// The number that the characters of `s` from `from` to `to` write, if
/// they are digits and it is at most `limit`.
fn parse_digits(s: &Vec<char>, from: usize, to: usize, limit: u64) -> (r: Option<u64>)
    requires
        from <= to <= s.len(),
    ensures
        r matches Some(n) ==> n == digits_value(s@.subrange(from as int, to as int)) && n <= limit
            && forall|i: int| from <= i < to ==> is_digit(#[trigger] s@[i]),
        r is None ==> digits_value(s@.subrange(from as int, to as int)) > limit || exists|i: int|
            from <= i < to && !is_digit(#[trigger] s@[i]),
{
    let ghost all = s@.subrange(from as int, to as int);
    let mut n: u64 = 0;
    let mut i: usize = from;
    assert(s@.subrange(from as int, from as int) =~= Seq::<char>::empty());
    while i < to
        invariant
            from <= i <= to <= s.len(),
            all == s@.subrange(from as int, to as int),
            n == digits_value(s@.subrange(from as int, i as int)),
            n <= limit,
            forall|j: int| from <= j < i ==> is_digit(#[trigger] s@[j]),
        decreases to - i,
    {
        let c = s[i] as u32;
        if c < 48 || c > 57 {
            return None;
        }
        let d = (c - 48) as u64;
        proof {
            assert(s@.subrange(from as int, i + 1).drop_last() =~= s@.subrange(
                from as int,
                i as int,
            ));
            assert(s@.subrange(from as int, i + 1) =~= all.subrange(0, i + 1 - from));
            lemma_digits_grow(all, i + 1 - from);
        }
        if d > limit || n > (limit - d) / 10 {
            return None;
        }
        n = n * 10 + d;
        i += 1;
    }
    Some(n)
}

/// The number that the characters of `s` before position `end` write,
/// if they write one that is at most `limit`.
fn parse_number(s: &Vec<char>, end: usize, limit: u64) -> (r: Option<u64>)
    requires
        end <= s.len(),
    ensures
        r matches Some(n) ==> number(s@.subrange(0, end as int)) == Some(n as nat) && n <= limit,
        r is None ==> match number(s@.subrange(0, end as int)) {
            Some(n) => n > limit,
            None => true,
        },
{
    let ghost text = s@.subrange(0, end as int);
    let from: usize = if end > 0 && s[0] == '+' {
        1
    } else {
        0
    };
    assert(digits_of(text) =~= s@.subrange(from as int, end as int));
    if from == end {
        return None;
    }
    let r = parse_digits(s, from, end, limit);
    proof {
        let digits = digits_of(text);
        assert forall|i: int| 0 <= i < digits.len() implies digits[i] == s@[from + i] by {}
        if r is Some {
            assert forall|i: int| 0 <= i < digits.len() implies is_digit(#[trigger] digits[i]) by {
                assert(is_digit(s@[from + i]));
            }
        } else if digits_value(digits) <= limit {
            let k = choose|k: int| from <= k < end && !is_digit(#[trigger] s@[k]);
            assert(digits[k - from] == s@[k]);
        }
    }
    r
}

/// The whole number that `s` writes, if it writes one that fits in 64
/// bits: digits, which a plus sign may precede.
pub fn parse_decimal(s: &str) -> (r: Option<u64>)
    ensures
        r matches Some(n) ==> number(s@) == Some(n as nat),
        r is None ==> match number(s@) {
            Some(n) => n > u64::MAX,
            None => true,
        },
{
    let v = chars_of(s);
    assert(v@.subrange(0, v.len() as int) =~= v@);
    parse_number(&v, v.len(), u64::MAX)
}

/// The length in seconds that `time_str` stands for: a whole number
/// followed by `S` for seconds, `M` for minutes or `H` for hours, in
/// either case.
pub fn parse_duration(time_str: &str) -> (r: Result<u64, DurationError>)
    ensures
        r == duration_of(time_str@),
{
    let v = chars_of(time_str);
    if v.len() == 0 {
        return Err(DurationError::InvalidFormat);
    }
    let last = v[v.len() - 1];
    let unit: u64 = if last == 'S' || last == 's' {
        1
    } else if last == 'M' || last == 'm' {
        60
    } else if last == 'H' || last == 'h' {
        3600
    } else {
        return Err(DurationError::InvalidFormat);
    };
    assert(unit_seconds(v@.last()) == Some(unit as nat));
    assert(v@.drop_last() =~= v@.subrange(0, v.len() - 1));
    let limit: u64 = u64::MAX / unit;
    match parse_number(&v, v.len() - 1, limit) {
        Some(n) => {
            assert(n * unit <= u64::MAX) by (nonlinear_arith)
                requires
                    n <= limit,
                    limit == u64::MAX / unit,
                    unit > 0,
            ;
            Ok(n * unit)
        },
        None => {
            proof {
                match number(v@.drop_last()) {
                    Some(m) => {
                        assert(m * unit > u64::MAX) by (nonlinear_arith)
                            requires
                                m > limit,
                                limit == u64::MAX / unit,
                                unit > 0,
                        ;
                    },
                    None => {},
                }
            }
            Err(DurationError::InvalidNumber)
        },
    }
}

} // verus!
