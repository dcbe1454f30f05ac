//! The statistics aggregator: counters fed by every transaction, and the
//! metrics derived from them.
//!
//! Times are whole milliseconds. A metric is an exact fraction of two
//! integers, so that nothing is rounded before it is shown.

use crate::request::Transaction;
use vstd::prelude::*;

verus! {

/// `std::time::Instant`: a reading of the monotonic clock. What it
/// holds is hidden from the proofs.
#[verifier::external_type_specification]
#[verifier::external_body]
pub struct ExInstant(std::time::Instant);

/// Trusted: `Instant::now` returns the current reading of the monotonic
/// clock. Nothing is claimed of the value.
pub assume_specification[ std::time::Instant::now ]() -> (now: std::time::Instant);

/// Trusted: `Instant::elapsed` returns the time that has passed since the
/// instant was taken. Nothing is claimed of the value.
pub assume_specification[ std::time::Instant::elapsed ](origin: &std::time::Instant) -> (d:
    std::time::Duration);

/// Trusted: `Duration::as_millis` returns the whole milliseconds that the
/// duration holds. Nothing is claimed of the value.
pub assume_specification[ std::time::Duration::as_millis ](d: &std::time::Duration) -> (ms: u128);

/// The whole milliseconds that have passed since `origin` was taken,
/// held to what 64 bits can count.
pub(crate) fn millis_since(origin: &std::time::Instant) -> u64 {
    let d = origin.elapsed();
    let ms = d.as_millis();
    saturated_millis(ms)
}

/// A non-negative fraction `num / den`.
#[derive(Clone, Copy, Debug, PartialEq, Eq)]
pub struct Ratio {
    pub num: u128,
    pub den: u128,
}

impl Ratio {
    /// The denominator is positive.
    pub open spec fn wf(self) -> bool {
        self.den > 0
    }

    /// The fraction `n / d`, or zero where `d` is zero.
    pub open spec fn of(n: nat, d: nat) -> Ratio
        recommends
            n <= u128::MAX,
            d <= u128::MAX,
    {
        if d == 0 {
            Ratio { num: 0, den: 1 }
        } else {
            Ratio { num: n as u128, den: d as u128 }
        }
    }

    /// The value zero.
    pub fn zero() -> (r: Ratio)
        ensures
            r == Ratio::of(0, 0),
    {
        Ratio { num: 0, den: 1 }
    }

    /// True when the fraction is zero.
    pub fn is_zero(&self) -> (b: bool)
        ensures
            b == (self.num == 0),
    {
        self.num == 0
    }

    /// The whole part of the fraction.
    pub fn floor(&self) -> (q: u128)
        requires
            self.wf(),
        ensures
            q == self.num / self.den,
    {
        self.num / self.den
    }
}

/// A status code counts as a success when it is a real protocol code
/// below 400. Code 0 stands for a transport failure.
pub open spec fn is_success(status_code: u16) -> bool {
    0 < status_code < 400
}

/// The count `n` as 128 bits hold it: the count itself, and the largest
/// number of 128 bits for a count beyond it.
pub open spec fn held(n: nat) -> nat {
    if n > u128::MAX {
        u128::MAX as nat
    } else {
        n
    }
}

/// The sum of the entries of `s`.
pub open spec fn sum_of(s: Seq<u64>) -> nat
    decreases s.len(),
{
    if s.len() == 0 {
        0
    } else {
        sum_of(s.drop_last()) + s.last() as nat
    }
}

/// One recorded request: response time in milliseconds, body size in
/// bytes and status code.
pub struct Sample {
    pub response_time: u64,
    pub data_size: u64,
    pub status_code: u16,
}

/// The figures of the final report.
#[derive(Clone, Copy, Debug)]
pub struct Summary {
    pub transactions: usize,
    pub availability: Ratio,
    /// Milliseconds.
    pub elapsed: u64,
    /// Bytes.
    pub data_transferred: u128,
    /// Milliseconds.
    pub avg_response_time: Ratio,
    /// Transactions per second.
    pub transaction_rate: Ratio,
    /// Mebibytes per second.
    pub throughput: Ratio,
    pub concurrency: Ratio,
    pub successful: usize,
    pub failed: usize,
    /// Milliseconds.
    pub longest: Option<u64>,
    /// Milliseconds.
    pub shortest: Option<u64>,
}

/// What the aggregator holds, as mathematical values.
pub struct StatsView {
    pub transactions: nat,
    pub successful: nat,
    pub failed: nat,
    pub response_times: Seq<u64>,
    pub data_transferred: nat,
    pub end_time: Option<u64>,
}

impl StatsView {
    /// The counters agree with each other: every transaction is a success
    /// or a failure and has one response time, and each brought at most
    /// `u64::MAX` bytes.
    pub open spec fn wf(self) -> bool {
        &&& self.successful + self.failed == self.transactions
        &&& self.response_times.len() == self.transactions
        &&& self.data_transferred <= self.transactions * u64::MAX
    }

    /// The aggregator before any transaction.
    pub open spec fn empty() -> StatsView {
        StatsView {
            transactions: 0,
            successful: 0,
            failed: 0,
            response_times: Seq::empty(),
            data_transferred: 0,
            end_time: None,
        }
    }

    /// The aggregator after one more transaction.
    pub open spec fn record(self, x: Sample) -> StatsView {
        StatsView {
            transactions: self.transactions + 1,
            successful: if is_success(x.status_code) {
                self.successful + 1
            } else {
                self.successful
            },
            failed: if is_success(x.status_code) {
                self.failed
            } else {
                self.failed + 1
            },
            response_times: self.response_times.push(x.response_time),
            data_transferred: self.data_transferred + x.data_size as nat,
            end_time: self.end_time,
        }
    }

    /// The aggregator after the transactions of `xs`, in that order.
    pub open spec fn record_all(self, xs: Seq<Sample>) -> StatsView
        decreases xs.len(),
    {
        if xs.len() == 0 {
            self
        } else {
            self.record_all(xs.drop_last()).record(xs.last())
        }
    }

    /// The aggregator once the run has been stamped as over after
    /// `elapsed` milliseconds.
    pub open spec fn finished(self, elapsed: u64) -> StatsView {
        StatsView { end_time: Some(elapsed), ..self }
    }

    /// The run's length in milliseconds, when the clock reads `now`
    /// milliseconds since the start.
    pub open spec fn elapsed(self, now: u64) -> u64 {
        match self.end_time {
            Some(e) => e,
            None => now,
        }
    }

    /// Successes as a percentage of all transactions.
    pub open spec fn availability(self) -> Ratio {
        Ratio::of(self.successful * 100, self.transactions)
    }

    /// Mean response time in milliseconds.
    pub open spec fn avg_response_time(self) -> Ratio {
        Ratio::of(sum_of(self.response_times), self.response_times.len())
    }

    /// Transactions per second over `elapsed` milliseconds.
    pub open spec fn transaction_rate(self, elapsed: u64) -> Ratio {
        Ratio::of(self.transactions * 1000, elapsed as nat)
    }

    /// Mebibytes per second over `elapsed` milliseconds. The numerator,
    /// a thousand times the bytes, is held to what 128 bits can count.
    pub open spec fn throughput(self, elapsed: u64) -> Ratio {
        Ratio::of(held(self.data_transferred * 1000), elapsed as nat * 1_048_576)
    }

    /// Mean response time times transaction rate, over 1000: the mean
    /// number of requests in flight. With one response time per
    /// transaction this is the summed response time over the elapsed
    /// time, both in milliseconds.
    pub open spec fn concurrency(self, elapsed: u64) -> Ratio {
        if self.response_times.len() == 0 {
            Ratio::of(0, 0)
        } else {
            Ratio::of(sum_of(self.response_times), elapsed as nat)
        }
    }

    /// The figures of the report over `elapsed` milliseconds.
    pub open spec fn describes(self, elapsed: u64, s: Summary) -> bool {
        &&& s.transactions == self.transactions
        &&& s.availability == self.availability()
        &&& s.elapsed == elapsed
        &&& s.data_transferred == self.data_transferred
        &&& s.avg_response_time == self.avg_response_time()
        &&& s.transaction_rate == self.transaction_rate(elapsed)
        &&& s.throughput == self.throughput(elapsed)
        &&& s.concurrency == self.concurrency(elapsed)
        &&& s.successful == self.successful
        &&& s.failed == self.failed
        &&& self.is_longest(s.longest)
        &&& self.is_shortest(s.shortest)
    }

    /// The longest response time, if any was recorded.
    pub open spec fn is_longest(self, t: Option<u64>) -> bool {
        match t {
            None => self.response_times.len() == 0,
            Some(m) => self.response_times.contains(m) && forall|i: int|
                0 <= i < self.response_times.len() ==> self.response_times[i] <= m,
        }
    }

    /// The shortest response time, if any was recorded.
    pub open spec fn is_shortest(self, t: Option<u64>) -> bool {
        match t {
            None => self.response_times.len() == 0,
            Some(m) => self.response_times.contains(m) && forall|i: int|
                0 <= i < self.response_times.len() ==> m <= self.response_times[i],
        }
    }
}

/// The sum of `n` values of 64 bits is below `n * 2^64`.
pub proof fn lemma_sum_bound(s: Seq<u64>)
    ensures
        sum_of(s) <= s.len() * u64::MAX,
    decreases s.len(),
{
    if s.len() > 0 {
        lemma_sum_bound(s.drop_last());
        assert(sum_of(s.drop_last()) <= (s.len() - 1) * u64::MAX);
        assert((s.len() - 1) * u64::MAX + u64::MAX == s.len() * u64::MAX) by (nonlinear_arith);
    }
}

/// Every call of `record` is counted once, as a success or as a failure:
/// after any sequence of calls, in whatever order they took the lock, the
/// number of transactions is the number of calls, the successes and the
/// failures add up to it, and one response time is held for each call.
pub proof fn lemma_no_lost_updates(xs: Seq<Sample>)
    ensures
        StatsView::empty().record_all(xs).transactions == xs.len(),
        StatsView::empty().record_all(xs).successful + StatsView::empty().record_all(xs).failed
            == xs.len(),
        StatsView::empty().record_all(xs).successful == xs.filter(
            |x: Sample| is_success(x.status_code),
        ).len(),
        StatsView::empty().record_all(xs).response_times == xs.map_values(
            |x: Sample| x.response_time,
        ),
        StatsView::empty().record_all(xs).data_transferred == sum_of(
            xs.map_values(|x: Sample| x.data_size),
        ),
    decreases xs.len(),
{
    let ok = |x: Sample| is_success(x.status_code);
    let rt = |x: Sample| x.response_time;
    let sz = |x: Sample| x.data_size;
    if xs.len() == 0 {
        assert(xs.filter(ok) =~= Seq::<Sample>::empty()) by {
            reveal(Seq::filter);
        }
        assert(xs.map_values(rt) =~= Seq::<u64>::empty());
        assert(xs.map_values(sz) =~= Seq::<u64>::empty());
    } else {
        let init = xs.drop_last();
        lemma_no_lost_updates(init);
        assert(xs.filter(ok) == if ok(xs.last()) {
            init.filter(ok).push(xs.last())
        } else {
            init.filter(ok)
        }) by {
            reveal(Seq::filter);
        }
        assert(xs.map_values(rt) =~= init.map_values(rt).push(xs.last().response_time));
        assert(xs.map_values(sz) =~= init.map_values(sz).push(xs.last().data_size));
        assert(xs.map_values(sz).drop_last() =~= init.map_values(sz));
    }
}

/// The calls that a number of workers make, each worker's in its own
/// order, one worker's after another's.
pub open spec fn all_calls(workers: Seq<Seq<Sample>>) -> Seq<Sample>
    decreases workers.len(),
{
    if workers.len() == 0 {
        Seq::empty()
    } else {
        all_calls(workers.drop_last()) + workers.last()
    }
}

/// The number of calls that the workers make in all.
pub open spec fn call_count(workers: Seq<Seq<Sample>>) -> nat
    decreases workers.len(),
{
    if workers.len() == 0 {
        0
    } else {
        call_count(workers.drop_last()) + workers.last().len()
    }
}

/// However the calls of several workers fall in with each other, none
/// is lost: if `order`, the order in which the calls took the lock, holds
/// each call of each worker once, then the number of transactions is the
/// number of calls that the workers made in all, and the successes and
/// the failures add up to it.
pub proof fn lemma_no_lost_updates_across_workers(workers: Seq<Seq<Sample>>, order: Seq<Sample>)
    requires
        order.to_multiset() == all_calls(workers).to_multiset(),
    ensures
        StatsView::empty().record_all(order).transactions == call_count(workers),
        StatsView::empty().record_all(order).successful + StatsView::empty().record_all(
            order,
        ).failed == call_count(workers),
{
    lemma_no_lost_updates(order);
    lemma_call_count(workers);
    vstd::seq_lib::to_multiset_len(order);
    vstd::seq_lib::to_multiset_len(all_calls(workers));
}

/// The calls of the workers together are as many as the workers made.
proof fn lemma_call_count(workers: Seq<Seq<Sample>>)
    ensures
        all_calls(workers).len() == call_count(workers),
    decreases workers.len(),
{
    if workers.len() > 0 {
        lemma_call_count(workers.drop_last());
    }
}

/// Recording keeps the counters in agreement.
pub proof fn lemma_record_keeps_wf(v: StatsView, x: Sample)
    requires
        v.wf(),
    ensures
        v.record(x).wf(),
{
    assert(v.transactions * u64::MAX + u64::MAX == (v.transactions + 1) * u64::MAX)
        by (nonlinear_arith);
}

/// With no transaction recorded, every derived metric is zero and has a
/// denominator other than zero, whatever the elapsed time: nothing is
/// divided by zero.
pub proof fn lemma_metrics_zero_without_transactions(v: StatsView, elapsed: u64)
    requires
        v.wf(),
        v.transactions == 0,
    ensures
        v.availability() == Ratio::of(0, 0),
        v.avg_response_time() == Ratio::of(0, 0),
        v.transaction_rate(elapsed).num == 0,
        v.throughput(elapsed).num == 0,
        v.concurrency(elapsed) == Ratio::of(0, 0),
        v.transaction_rate(elapsed).wf(),
        v.throughput(elapsed).wf(),
{
    assert(v.response_times =~= Seq::<u64>::empty());
}

/// The aggregator.
pub struct Stats {
    transactions: usize,
    successful_transactions: usize,
    failed_transactions: usize,
    response_times: Vec<u64>,
    data_transferred: u128,
    start_time: std::time::Instant,
    end_time: Option<u64>,
}

impl View for Stats {
    type V = StatsView;

    closed spec fn view(&self) -> StatsView {
        StatsView {
            transactions: self.transactions as nat,
            successful: self.successful_transactions as nat,
            failed: self.failed_transactions as nat,
            response_times: self.response_times@,
            data_transferred: self.data_transferred as nat,
            end_time: self.end_time,
        }
    }
}

impl Stats {
    /// The counters agree with each other: every transaction is a success
    /// or a failure, and has one response time.
    pub open spec fn wf(&self) -> bool {
        self@.wf()
    }

    /// The reading of the clock at which the aggregator was made. It is
    /// set once and for all.
    pub closed spec fn start(&self) -> std::time::Instant {
        self.start_time
    }

    /// An aggregator with nothing recorded, whose clock starts now.
    pub fn new() -> (s: Stats)
        ensures
            s.wf(),
            s@ == StatsView::empty(),
    {
        Stats {
            transactions: 0,
            successful_transactions: 0,
            failed_transactions: 0,
            response_times: Vec::new(),
            data_transferred: 0,
            start_time: std::time::Instant::now(),
            end_time: None,
        }
    }

    /// Records one transaction.
    pub fn add_transaction(&mut self, response_time: u64, data_size: u64, status_code: u16)
        requires
            old(self).wf(),
        ensures
            final(self).wf(),
            final(self)@ == old(self)@.record(
                Sample { response_time, data_size, status_code },
            ),
            final(self).start() == old(self).start(),
    {
        proof {
            lemma_record_keeps_wf(self@, Sample { response_time, data_size, status_code });
        }
        self.response_times.push(response_time);
        self.transactions = self.response_times.len();
        assert(self.data_transferred + data_size <= u128::MAX) by (nonlinear_arith)
            requires
                self.data_transferred <= (self.transactions - 1) * u64::MAX,
                1 <= self.transactions <= 0xffff_ffff_ffff_ffff,
                data_size <= u64::MAX,
        ;
        self.data_transferred = self.data_transferred + data_size as u128;
        if 0 < status_code && status_code < 400 {
            self.successful_transactions = self.successful_transactions + 1;
        } else {
            self.failed_transactions = self.failed_transactions + 1;
        }
    }

    /// Records the transaction `t`.
    pub fn record(&mut self, t: &Transaction)
        requires
            old(self).wf(),
        ensures
            final(self).wf(),
            final(self)@ == old(self)@.record(
                Sample {
                    response_time: t.response_time,
                    data_size: t.data_size,
                    status_code: t.status_code,
                },
            ),
            final(self).start() == old(self).start(),
    {
        self.add_transaction(t.response_time, t.data_size, t.status_code);
    }

    /// Stamps the end of the run with the clock's reading. A second call
    /// overwrites the first stamp.
    pub fn finish(&mut self)
        ensures
            final(self).wf() == old(self).wf(),
            final(self)@.end_time is Some,
            final(self)@ == old(self)@.finished(final(self)@.end_time->0),
            final(self).start() == old(self).start(),
    {
        let now = millis_since(&self.start_time);
        self.finish_at(now);
    }

    /// Stamps the end of the run at `elapsed` milliseconds after its
    /// start. A second call overwrites the first stamp.
    pub fn finish_at(&mut self, elapsed: u64)
        ensures
            final(self).wf() == old(self).wf(),
            final(self)@ == old(self)@.finished(elapsed),
            final(self).start() == old(self).start(),
    {
        self.end_time = Some(elapsed);
    }

    /// The run's length in milliseconds: up to the end stamp if there is
    /// one, else up to now.
    pub fn elapsed_time(&self) -> (ms: u64)
        ensures
            exists|now: u64| ms == self@.elapsed(now),
            self@.end_time matches Some(e) ==> ms == e,
    {
        let now = millis_since(&self.start_time);
        let ms = self.elapsed_at(now);
        assert(ms == self@.elapsed(now));
        ms
    }

    /// The run's length in milliseconds when the clock reads `now`.
    pub fn elapsed_at(&self, now: u64) -> (ms: u64)
        ensures
            ms == self@.elapsed(now),
    {
        match self.end_time {
            Some(e) => e,
            None => now,
        }
    }

    /// The number of transactions recorded.
    pub fn transactions(&self) -> (n: usize)
        ensures
            n == self@.transactions,
    {
        self.transactions
    }

    /// The number of successful transactions.
    pub fn successful_transactions(&self) -> (n: usize)
        ensures
            n == self@.successful,
    {
        self.successful_transactions
    }

    /// The number of failed transactions.
    pub fn failed_transactions(&self) -> (n: usize)
        ensures
            n == self@.failed,
    {
        self.failed_transactions
    }

    /// The bytes transferred so far.
    pub fn data_transferred(&self) -> (n: u128)
        ensures
            n == self@.data_transferred,
    {
        self.data_transferred
    }

    /// The response times, in the order in which they were recorded.
    pub fn response_times(&self) -> (v: &Vec<u64>)
        ensures
            v@ == self@.response_times,
    {
        &self.response_times
    }

    /// The summed response time in milliseconds.
    fn total_response_time(&self) -> (total: u128)
        ensures
            total == sum_of(self@.response_times),
    {
        let mut total: u128 = 0;
        let mut i: usize = 0;
        while i < self.response_times.len()
            invariant
                i <= self.response_times.len(),
                total == sum_of(self.response_times@.take(i as int)),
            decreases self.response_times.len() - i,
        {
            proof {
                let next = self.response_times@.take(i + 1);
                assert(next.drop_last() =~= self.response_times@.take(i as int));
                lemma_sum_bound(next);
                assert(next.len() * u64::MAX <= usize::MAX * u64::MAX) by (nonlinear_arith)
                    requires
                        next.len() <= usize::MAX,
                ;
            }
            total = total + self.response_times[i] as u128;
            i += 1;
        }
        assert(self.response_times@.take(i as int) =~= self.response_times@);
        total
    }

    /// Mean response time in milliseconds; zero with nothing recorded.
    pub fn avg_response_time(&self) -> (r: Ratio)
        ensures
            r.wf(),
            r == self@.avg_response_time(),
    {
        let n = self.response_times.len();
        if n == 0 {
            Ratio::zero()
        } else {
            Ratio { num: self.total_response_time(), den: n as u128 }
        }
    }

    /// Transactions per second; zero when no time has passed.
    pub fn transaction_rate(&self) -> (r: Ratio)
        ensures
            r.wf(),
            exists|now: u64| r == self@.transaction_rate(now),
            self@.end_time matches Some(e) ==> r == self@.transaction_rate(e),
            self@.transactions == 0 ==> r.num == 0,
    {
        let now = millis_since(&self.start_time);
        let elapsed = self.elapsed_at(now);
        let r = self.transaction_rate_over(elapsed);
        assert(r == self@.transaction_rate(elapsed));
        r
    }

    /// Transactions per second over `elapsed` milliseconds; zero when
    /// `elapsed` is zero.
    pub fn transaction_rate_over(&self, elapsed: u64) -> (r: Ratio)
        ensures
            r.wf(),
            r == self@.transaction_rate(elapsed),
    {
        if elapsed == 0 {
            Ratio::zero()
        } else {
            Ratio { num: self.transactions as u128 * 1000, den: elapsed as u128 }
        }
    }

    /// Mebibytes per second; zero when no time has passed.
    pub fn throughput(&self) -> (r: Ratio)
        ensures
            r.wf(),
            exists|now: u64| r == self@.throughput(now),
            self@.end_time matches Some(e) ==> r == self@.throughput(e),
            self@.data_transferred == 0 ==> r.num == 0,
    {
        let now = millis_since(&self.start_time);
        let elapsed = self.elapsed_at(now);
        let r = self.throughput_over(elapsed);
        assert(r == self@.throughput(elapsed));
        r
    }

    /// Mebibytes per second over `elapsed` milliseconds; zero when
    /// `elapsed` is zero.
    pub fn throughput_over(&self, elapsed: u64) -> (r: Ratio)
        ensures
            r.wf(),
            r == self@.throughput(elapsed),
    {
        if elapsed == 0 {
            Ratio::zero()
        } else {
            let num: u128 = if self.data_transferred > u128::MAX / 1000 {
                u128::MAX
            } else {
                self.data_transferred * 1000
            };
            Ratio { num, den: elapsed as u128 * 1_048_576 }
        }
    }

    /// The mean number of requests in flight; zero with nothing recorded
    /// or when no time has passed.
    pub fn concurrency(&self) -> (r: Ratio)
        ensures
            r.wf(),
            exists|now: u64| r == self@.concurrency(now),
            self@.end_time matches Some(e) ==> r == self@.concurrency(e),
            self@.response_times.len() == 0 ==> r.num == 0,
    {
        let now = millis_since(&self.start_time);
        let elapsed = self.elapsed_at(now);
        let r = self.concurrency_over(elapsed);
        assert(r == self@.concurrency(elapsed));
        r
    }

    /// The mean number of requests in flight over `elapsed` milliseconds;
    /// zero with nothing recorded or when `elapsed` is zero.
    pub fn concurrency_over(&self, elapsed: u64) -> (r: Ratio)
        ensures
            r.wf(),
            r == self@.concurrency(elapsed),
    {
        if self.response_times.len() == 0 || elapsed == 0 {
            Ratio::zero()
        } else {
            Ratio { num: self.total_response_time(), den: elapsed as u128 }
        }
    }

    /// Successes as a percentage of all transactions; zero with nothing
    /// recorded.
    pub fn availability(&self) -> (r: Ratio)
        ensures
            r.wf(),
            r == self@.availability(),
    {
        if self.transactions == 0 {
            Ratio::zero()
        } else {
            Ratio { num: self.successful_transactions as u128 * 100, den: self.transactions as u128 }
        }
    }

    /// The figures of the report, taken together at one reading of
    /// the clock.
    pub fn summary(&self) -> (s: Summary)
        ensures
            self@.describes(s.elapsed, s),
            self@.end_time matches Some(e) ==> s.elapsed == e,
    {
        self.summary_over(self.elapsed_time())
    }

    /// The figures of the report over `elapsed` milliseconds.
    pub fn summary_over(&self, elapsed: u64) -> (s: Summary)
        ensures
            self@.describes(elapsed, s),
    {
        Summary {
            transactions: self.transactions,
            availability: self.availability(),
            elapsed,
            data_transferred: self.data_transferred,
            avg_response_time: self.avg_response_time(),
            transaction_rate: self.transaction_rate_over(elapsed),
            throughput: self.throughput_over(elapsed),
            concurrency: self.concurrency_over(elapsed),
            successful: self.successful_transactions,
            failed: self.failed_transactions,
            longest: self.longest_transaction(),
            shortest: self.shortest_transaction(),
        }
    }

    /// The longest response time, if any was recorded.
    pub fn longest_transaction(&self) -> (t: Option<u64>)
        ensures
            self@.is_longest(t),
    {
        if self.response_times.len() == 0 {
            return None;
        }
        let mut best: u64 = self.response_times[0];
        let mut i: usize = 1;
        while i < self.response_times.len()
            invariant
                1 <= i <= self.response_times.len(),
                self.response_times@.contains(best),
                forall|j: int| 0 <= j < i ==> self.response_times@[j] <= best,
            decreases self.response_times.len() - i,
        {
            if self.response_times[i] > best {
                best = self.response_times[i];
            }
            i += 1;
        }
        Some(best)
    }

    /// The shortest response time, if any was recorded.
    pub fn shortest_transaction(&self) -> (t: Option<u64>)
        ensures
            self@.is_shortest(t),
    {
        if self.response_times.len() == 0 {
            return None;
        }
        let mut best: u64 = self.response_times[0];
        let mut i: usize = 1;
        while i < self.response_times.len()
            invariant
                1 <= i <= self.response_times.len(),
                self.response_times@.contains(best),
                forall|j: int| 0 <= j < i ==> best <= self.response_times@[j],
            decreases self.response_times.len() - i,
        {
            if self.response_times[i] < best {
                best = self.response_times[i];
            }
            i += 1;
        }
        Some(best)
    }
}

/// A count of milliseconds as 64 bits hold it: the count itself, and
/// the largest number of 64 bits for a count beyond it.
pub open spec fn saturated(ms: u128) -> u64 {
    if ms > u64::MAX {
        u64::MAX
    } else {
        ms as u64
    }
}

/// The count `ms` of milliseconds, held to what 64 bits can count.
pub fn saturated_millis(ms: u128) -> (r: u64)
    ensures
        r == saturated(ms),
{
    if ms > 0xffff_ffff_ffff_ffff {
        u64::MAX
    } else {
        ms as u64
    }
}

} // verus!
