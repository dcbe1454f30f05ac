//! The load plan of the virtual users: which part of the URL list each
//! user works on, which URL it asks for next, when it stops, and how
//! long it pauses between two requests.

use crate::stats::millis_since;
use vstd::prelude::*;

verus! {

/// A number between `low` and `high`, drawn at random.
///
/// Trusted: `rand::rng().random_range(low..=high)`, which panics on an
/// empty range and else returns a value of the range. The range
/// `low..=high` is not empty where `low <= high`.
#[verifier::external_body]
pub(crate) fn random_in(low: u64, high: u64) -> (r: u64)
    requires
        low <= high,
    ensures
        low <= r <= high,
{
    rand::Rng::random_range(&mut rand::rng(), low..=high)
}

/// `n / d`, rounded up; zero where `d` is zero.
pub open spec fn ceil_div(n: nat, d: nat) -> nat {
    if d == 0 {
        0
    } else if n % d == 0 {
        n / d
    } else {
        n / d + 1
    }
}

/// The size of the parts into which a list of `len` URLs is cut for
/// `workers` users: `len / workers`, rounded up.
pub open spec fn chunk_size(len: nat, workers: nat) -> nat {
    ceil_div(len, workers)
}

/// The number of parts of that size that the list has.
pub open spec fn part_count(len: nat, workers: nat) -> nat {
    ceil_div(len, chunk_size(len, workers))
}

/// The part of a list of `len` URLs that user `worker` of `workers`
/// works on, as the positions from the first to before the second. The
/// parts lie one behind the other, and the last may be shorter. Where
/// there are more users than parts, the users behind the last part start
/// over at the first. Without URLs or users there is no part.
pub open spec fn partition_of(len: nat, worker: nat, workers: nat) -> Option<(nat, nat)> {
    if len == 0 || workers == 0 {
        None
    } else {
        let size = chunk_size(len, workers);
        let start = (worker % part_count(len, workers)) * size;
        if start + size <= len {
            Some((start, start + size))
        } else {
            Some((start, len))
        }
    }
}

/// The parts of a list are not empty, no more than the users, and the
/// last of them starts within the list.
pub proof fn lemma_part_count(len: nat, workers: nat)
    requires
        len > 0,
        workers > 0,
    ensures
        chunk_size(len, workers) > 0,
        0 < part_count(len, workers) <= workers,
        (part_count(len, workers) - 1) * chunk_size(len, workers) < len,
        len <= part_count(len, workers) * chunk_size(len, workers),
{
    let size = chunk_size(len, workers);
    assert(size * workers >= len && size > 0) by (nonlinear_arith)
        requires
            workers > 0,
            len > 0,
            size == if len % workers == 0 {
                len / workers
            } else {
                len / workers + 1
            },
    ;
    let m = part_count(len, workers);
    assert(m > 0 && (m - 1) * size < len && len <= m * size) by (nonlinear_arith)
        requires
            size > 0,
            len > 0,
            m == if len % size == 0 {
                len / size
            } else {
                len / size + 1
            },
    ;
    assert(m <= workers) by (nonlinear_arith)
        requires
            (m - 1) * size < len,
            len <= size * workers,
            size > 0,
    ;
}

/// Every user has a part of the list to work on, which is not empty and
/// no longer than the list's length over the number of users, rounded
/// up; and a user behind the last part has the part of the user whose
/// number is its own modulo the number of parts.
pub proof fn lemma_partition_shape(len: nat, worker: nat, workers: nat)
    requires
        len > 0,
        workers > 0,
    ensures
        partition_of(len, worker, workers) matches Some((a, b)) && a < b <= len && b - a
            <= chunk_size(len, workers),
        partition_of(len, worker, workers) == partition_of(
            len,
            worker % part_count(len, workers),
            workers,
        ),
{
    lemma_part_count(len, workers);
    let size = chunk_size(len, workers);
    let m = part_count(len, workers);
    let i = worker % m;
    assert(i * size <= (m - 1) * size) by (nonlinear_arith)
        requires
            0 <= i <= m - 1,
            size > 0,
    ;
    assert(i % m == i) by (nonlinear_arith)
        requires
            0 <= i < m,
    ;
}

/// The parts are cut one behind the other and cover the list: every
/// position of the list lies in the part of exactly one of the first
/// users, as many as there are parts.
pub proof fn lemma_partitions_cover(len: nat, workers: nat, i: nat)
    requires
        workers > 0,
        i < len,
    ensures
        ({
            let w = i / chunk_size(len, workers);
            &&& w < part_count(len, workers) <= workers
            &&& partition_of(len, w, workers) matches Some((a, b))
            &&& a <= i < b
        }),
        forall|v: nat|
            v < part_count(len, workers) && (#[trigger] partition_of(len, v, workers) matches Some(
                (a, b),
            ) && a <= i < b) ==> v == i / chunk_size(len, workers),
{
    lemma_part_count(len, workers);
    let size = chunk_size(len, workers);
    let m = part_count(len, workers);
    let w = i / size;
    assert(w * size <= i < w * size + size) by (nonlinear_arith)
        requires
            size > 0,
            w == i / size,
    ;
    assert(w < m) by (nonlinear_arith)
        requires
            w * size <= i,
            i < len,
            len <= m * size,
            size > 0,
    ;
    assert(w % m == w) by (nonlinear_arith)
        requires
            0 <= w < m,
    ;
    assert forall|v: nat|
        v < m && (#[trigger] partition_of(len, v, workers) matches Some((a, b)) && a <= i
            < b) implies v == w by {
        assert(v % m == v) by (nonlinear_arith)
            requires
                0 <= v < m,
        ;
        assert(v * size <= i < v * size + size);
        assert(v == w) by (nonlinear_arith)
            requires
                v * size <= i < v * size + size,
                w * size <= i < w * size + size,
                size > 0,
        ;
    }
}

/// `n / d`, rounded up.
fn div_ceil(n: usize, d: usize) -> (q: usize)
    requires
        d > 0,
    ensures
        q == ceil_div(n as nat, d as nat),
{
    if n % d == 0 {
        n / d
    } else {
        assert(n / d < usize::MAX) by (nonlinear_arith)
            requires
                d > 0,
                n % d != 0,
                n <= usize::MAX,
        ;
        n / d + 1
    }
}

/// The part of a list of `len` URLs that user `thread_id` of
/// `total_threads` works on.
pub fn partition(len: usize, thread_id: usize, total_threads: usize) -> (r: Option<(usize, usize)>)
    ensures
        match r {
            Some((a, b)) => partition_of(len as nat, thread_id as nat, total_threads as nat) == Some(
                (a as nat, b as nat),
            ),
            None => partition_of(len as nat, thread_id as nat, total_threads as nat) is None,
        },
        r matches Some((a, b)) ==> a < b <= len,
{
    if total_threads == 0 || len == 0 {
        return None;
    }
    proof {
        lemma_part_count(len as nat, total_threads as nat);
        lemma_partition_shape(len as nat, thread_id as nat, total_threads as nat);
    }
    let size = div_ceil(len, total_threads);
    let parts = div_ceil(len, size);
    let i = thread_id % parts;
    assert(i * size <= (parts - 1) * size) by (nonlinear_arith)
        requires
            0 <= i <= parts - 1,
            size > 0,
    ;
    let start = i * size;
    if size <= len - start {
        Some((start, start + size))
    } else {
        Some((start, len))
    }
}

/// The state of one virtual user, as mathematical values.
pub struct UserView {
    /// The first position of the user's part of the URL list.
    pub start: nat,
    /// The position behind the user's part.
    pub end: nat,
    /// The requests made so far.
    pub request_count: nat,
    /// The number of requests after which the user stops, if bounded.
    pub repetitions: Option<nat>,
    /// The seconds after which the user stops, if bounded.
    pub duration: Option<nat>,
    /// Whether the next URL is drawn at random.
    pub internet_mode: bool,
}

impl UserView {
    /// The user has a part to work on.
    pub open spec fn wf(self) -> bool {
        self.start < self.end
    }

    /// True when the user makes no further request, `elapsed` being the
    /// milliseconds since its start: the time or the repetitions are
    /// used up, or the request counter has reached the largest number it
    /// can hold.
    pub open spec fn stops(self, elapsed: nat) -> bool {
        ||| (self.duration matches Some(d) && elapsed >= d * 1000)
        ||| (self.repetitions matches Some(r) && self.request_count >= r)
        ||| self.request_count >= usize::MAX
    }

    /// The position of the URL that the user asks for next: drawn by
    /// `random` in internet mode, where the part has more than one URL,
    /// and else the next in turn, starting over at the end of the part.
    pub open spec fn pick(self, random: nat) -> nat {
        let size = (self.end - self.start) as nat;
        if self.internet_mode && size > 1 {
            self.start + random % size
        } else {
            self.start + self.request_count % size
        }
    }

    /// The user after one more request.
    pub open spec fn after_request(self) -> UserView {
        UserView { request_count: self.request_count + 1, ..self }
    }

    /// The user after `n` more requests.
    pub open spec fn after_requests(self, n: nat) -> UserView {
        UserView { request_count: self.request_count + n, ..self }
    }
}

/// A user never leaves its part of the URL list.
pub proof fn lemma_pick_in_partition(u: UserView, random: nat)
    requires
        u.wf(),
    ensures
        u.start <= u.pick(random) < u.end,
{
    let size = (u.end - u.start) as nat;
    assert(random % size < size) by (nonlinear_arith)
        requires
            size > 0,
    ;
    assert(u.request_count % size < size) by (nonlinear_arith)
        requires
            size > 0,
    ;
}

/// Without random selection a user goes through its part in order: the
/// URL after the next is the one behind it, or the first of the part
/// after the last.
pub proof fn lemma_sequential_order(u: UserView, random: nat, later: nat)
    requires
        u.wf(),
        !u.internet_mode,
    ensures
        u.after_request().pick(later) == if u.pick(random) + 1 == u.end {
            u.start
        } else {
            u.pick(random) + 1
        },
{
    let size = (u.end - u.start) as nat;
    let c = u.request_count;
    assert((c + 1) % size == if c % size + 1 == size {
        0
    } else {
        c % size + 1
    }) by (nonlinear_arith)
        requires
            size > 0,
    ;
}

/// A user bounded by repetitions alone makes exactly that many requests,
/// whatever the time: it goes on before the last of them and stops
/// after it.
pub proof fn lemma_repetitions_are_made(u: UserView, repetitions: nat, n: nat, elapsed: nat)
    requires
        u.request_count == 0,
        u.repetitions == Some(repetitions),
        u.duration is None,
        repetitions < usize::MAX,
    ensures
        n < repetitions ==> !u.after_requests(n).stops(elapsed),
        u.after_requests(repetitions).stops(elapsed),
{
}

/// One virtual user.
pub struct VirtualUser {
    start_idx: usize,
    end_idx: usize,
    request_count: usize,
    repetitions: Option<usize>,
    duration: Option<u64>,
    internet_mode: bool,
    start_time: std::time::Instant,
}

impl View for VirtualUser {
    type V = UserView;

    closed spec fn view(&self) -> UserView {
        UserView {
            start: self.start_idx as nat,
            end: self.end_idx as nat,
            request_count: self.request_count as nat,
            repetitions: match self.repetitions {
                Some(r) => Some(r as nat),
                None => None,
            },
            duration: match self.duration {
                Some(d) => Some(d as nat),
                None => None,
            },
            internet_mode: self.internet_mode,
        }
    }
}

impl VirtualUser {
    /// The user has a part to work on.
    pub open spec fn wf(&self) -> bool {
        self@.wf()
    }

    /// The reading of the clock at which the user started. It is set
    /// once and for all.
    pub closed spec fn start(&self) -> std::time::Instant {
        self.start_time
    }

    /// User `thread_id` of `total_threads` on a list of `url_count` URLs,
    /// bounded by `repetitions` requests and `duration` seconds where
    /// these are given. Its time starts now. None where there are no URLs
    /// or no users.
    pub fn new(
        url_count: usize,
        thread_id: usize,
        total_threads: usize,
        repetitions: Option<usize>,
        duration: Option<u64>,
        internet_mode: bool,
    ) -> (user: Option<VirtualUser>)
        ensures
            match user {
                Some(u) => u.wf() && partition_of(
                    url_count as nat,
                    thread_id as nat,
                    total_threads as nat,
                ) == Some((u@.start, u@.end)) && u@.end <= url_count && u@.request_count == 0
                    && u@.repetitions == (match repetitions {
                    Some(r) => Some(r as nat),
                    None => None,
                }) && u@.duration == (match duration {
                    Some(d) => Some(d as nat),
                    None => None,
                }) && u@.internet_mode == internet_mode,
                None => partition_of(url_count as nat, thread_id as nat, total_threads as nat)
                    is None,
            },
    {
        match partition(url_count, thread_id, total_threads) {
            Some((start_idx, end_idx)) => Some(
                VirtualUser {
                    start_idx,
                    end_idx,
                    request_count: 0,
                    repetitions,
                    duration,
                    internet_mode,
                    start_time: std::time::Instant::now(),
                },
            ),
            None => None,
        }
    }

    /// True when the user makes no further request, `elapsed` being the
    /// milliseconds since its start.
    pub fn should_stop(&self, elapsed: u64) -> (b: bool)
        ensures
            b == self@.stops(elapsed as nat),
    {
        let timed_out = match self.duration {
            Some(d) => elapsed as u128 >= d as u128 * 1000,
            None => false,
        };
        let repeated = match self.repetitions {
            Some(r) => self.request_count >= r,
            None => false,
        };
        timed_out || repeated || self.request_count == usize::MAX
    }

    /// The position in the URL list of the URL that the user asks for
    /// next, `random` being a number drawn for this request.
    pub fn select(&self, random: u64) -> (idx: usize)
        requires
            self.wf(),
        ensures
            idx == self@.pick(random as nat),
            self@.start <= idx < self@.end,
    {
        proof {
            lemma_pick_in_partition(self@, random as nat);
        }
        let size = self.end_idx - self.start_idx;
        if self.internet_mode && size > 1 {
            let offset = (random % (size as u64)) as usize;
            self.start_idx + offset
        } else {
            self.start_idx + self.request_count % size
        }
    }

    /// The next request of the user, `elapsed` milliseconds after its
    /// start: the position of the URL to ask for, or none when the user
    /// stops. The request is counted.
    pub fn next_request_with(&mut self, elapsed: u64, random: u64) -> (idx: Option<usize>)
        requires
            old(self).wf(),
        ensures
            final(self).wf(),
            match idx {
                Some(i) => !old(self)@.stops(elapsed as nat) && i == old(self)@.pick(random as nat)
                    && old(self)@.start <= i < old(self)@.end && final(self)@ == old(
                    self,
                )@.after_request(),
                None => old(self)@.stops(elapsed as nat) && final(self)@ == old(self)@,
            },
            final(self).start() == old(self).start(),
    {
        if self.should_stop(elapsed) {
            return None;
        }
        let idx = self.select(random);
        self.request_count = self.request_count + 1;
        Some(idx)
    }

    /// The next request of the user at this moment, with the time read
    /// from the clock and the random number drawn here: the position of
    /// the URL to ask for, or none when the user stops.
    pub fn next_request(&mut self) -> (idx: Option<usize>)
        requires
            old(self).wf(),
        ensures
            final(self).wf(),
            match idx {
                Some(i) => old(self)@.start <= i < old(self)@.end && (exists|random: u64|
                    i == old(self)@.pick(random as nat)) && (!old(self)@.internet_mode ==> i
                    == old(self)@.pick(0)) && final(self)@ == old(self)@.after_request(),
                None => (exists|elapsed: u64| old(self)@.stops(elapsed as nat)) && final(self)@
                    == old(self)@,
            },
            idx is Some ==> !old(self)@.stops(0),
            old(self)@.duration is None ==> (idx is None <==> old(self)@.stops(0)),
            final(self).start() == old(self).start(),
    {
        let elapsed = millis_since(&self.start_time);
        let idx = self.next_request_at(elapsed);
        assert(idx is None ==> old(self)@.stops(elapsed as nat));
        assert(idx is Some ==> !old(self)@.stops(elapsed as nat));
        idx
    }

    /// The next request of the user, `elapsed` milliseconds after its
    /// start, with the random number drawn here.
    pub fn next_request_at(&mut self, elapsed: u64) -> (idx: Option<usize>)
        requires
            old(self).wf(),
        ensures
            final(self).wf(),
            match idx {
                Some(i) => !old(self)@.stops(elapsed as nat) && old(self)@.start <= i < old(
                    self,
                )@.end && (exists|random: u64| i == old(self)@.pick(random as nat)) && (!old(
                    self,
                )@.internet_mode ==> i == old(self)@.pick(0)) && final(self)@ == old(
                    self,
                )@.after_request(),
                None => old(self)@.stops(elapsed as nat) && final(self)@ == old(self)@,
            },
            final(self).start() == old(self).start(),
    {
        let random = random_in(0, u64::MAX);
        let idx = self.next_request_with(elapsed, random);
        assert(idx matches Some(i) ==> i == old(self)@.pick(random as nat));
        idx
    }

    /// The requests that the user has made.
    pub fn request_count(&self) -> (n: usize)
        ensures
            n == self@.request_count,
    {
        self.request_count
    }

    /// The user's part of the URL list, from the first position to
    /// before the second.
    pub fn range(&self) -> (r: (usize, usize))
        ensures
            r.0 == self@.start,
            r.1 == self@.end,
    {
        (self.start_idx, self.end_idx)
    }
}

/// The pause after a request: the configured delay and the extra drawn
/// for it.
pub open spec fn jittered(delay: u64, extra: u64) -> nat {
    (delay + extra) as nat
}

/// The seconds to pause after a request, given the configured `delay`
/// and the `extra` drawn for this pause. No pause where the delay is
/// zero.
pub fn jittered_delay(delay: u64, extra: u64) -> (pause: Option<u64>)
    requires
        extra <= delay / 2,
        delay + delay / 2 <= u64::MAX,
    ensures
        delay == 0 <==> pause is None,
        pause matches Some(p) ==> p == jittered(delay, extra),
{
    if delay > 0 {
        Some(delay + extra)
    } else {
        None
    }
}

/// The seconds to pause after a request: the configured `delay` and a
/// random extra of up to half of it. No pause where the delay is zero.
pub fn pause_after_request(delay: u64) -> (pause: Option<u64>)
    requires
        delay + delay / 2 <= u64::MAX,
    ensures
        delay == 0 <==> pause is None,
        pause matches Some(p) ==> delay <= p <= delay + delay / 2,
{
    let extra = random_in(0, delay / 2);
    jittered_delay(delay, extra)
}

} // verus!
