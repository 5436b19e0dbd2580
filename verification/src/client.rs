//! What a load test measures.

use crate::service_utils::little_endian;
use crate::service_utils::text;
use std::collections::hash_map::DefaultHasher;
use std::hash::Hasher;
use vstd::prelude::*;
use vstd::std_specs::hash::DefaultHasherAdditionalSpecFns;

verus! {

/// Configuration for load test runs
#[derive(Clone)]
pub struct LoadTestConfig {
    /// Maximum number of concurrent requests at any time
    pub concurrency: usize,
    /// Total number of requests to complete before stopping
    pub max_requests: u64,
    /// Interval between checkpoint logs (in seconds)
    pub checkpoint_interval_secs: u64,
    /// Server endpoints to distribute load across
    pub endpoints: Vec<String>,
    /// Request timeout (in seconds)
    pub timeout_secs: u64,
}

impl Default for LoadTestConfig {
    fn default() -> (config: Self)
        ensures
            config.concurrency == 1000,
            config.max_requests == 500_000,
            config.checkpoint_interval_secs == 5,
            config.endpoints@.len() == 3,
            config.endpoints@[0]@ == "http://[::1]:50051"@,
            config.endpoints@[1]@ == "http://[::1]:50052"@,
            config.endpoints@[2]@ == "http://[::1]:50053"@,
            config.timeout_secs == 5,
    {
        let mut endpoints: Vec<String> = Vec::new();
        endpoints.push("http://[::1]:50051".to_owned());
        endpoints.push("http://[::1]:50052".to_owned());
        endpoints.push("http://[::1]:50053".to_owned());
        LoadTestConfig {
            concurrency: 1000,
            max_requests: 500_000,
            checkpoint_interval_secs: 5,
            endpoints,
            timeout_secs: 5,
        }
    }
}

/// Summary of the latencies at a point in time (in microseconds)
#[derive(Debug, Clone, Copy, PartialEq, Eq, Structural)]
pub struct LatencySummary {
    pub completed: u64,
    pub errors: u64,
    pub p50_micros: i64,
    pub p75_micros: i64,
    pub p95_micros: i64,
    pub p99_micros: i64,
    pub min_micros: i64,
    pub max_micros: i64,
    /// The sum of all latencies, for their average.
    pub sum_micros: i128,
    /// How many latencies there are.
    pub count: usize,
}

/// Metrics collector for latency tracking
pub struct MetricsCollector {
    /// latencies in microseconds
    pub latencies: Vec<i64>,
    pub completed: u64,
    pub errors: u64,
}

/// A counter one further. It starts again behind its largest value.
pub open spec fn counted(counter: u64) -> u64 {
    if counter == u64::MAX {
        0
    } else {
        (counter + 1) as u64
    }
}

fn count(counter: u64) -> (next: u64)
    ensures
        next == counted(counter),
{
    if counter == u64::MAX {
        0
    } else {
        counter + 1
    }
}

/// Whether numbers are in ascending order.
pub open spec fn is_sorted(data: Seq<i64>) -> bool {
    forall|i: int, j: int| 0 <= i <= j < data.len() ==> data[i] <= data[j]
}

/// The value below which `percentile` percent of the sorted data lie.
pub open spec fn percentile_of(sorted_data: Seq<i64>, percentile: int) -> i64 {
    let index = sorted_data.len() * percentile / 100;
    if sorted_data.len() == 0 {
        0
    } else if index < sorted_data.len() {
        sorted_data[index]
    } else {
        sorted_data.last()
    }
}

/// The sum of some numbers.
pub open spec fn sum_of(data: Seq<i64>) -> int
    decreases data.len(),
{
    if data.len() == 0 {
        0
    } else {
        sum_of(data.drop_last()) + data.last()
    }
}

/// Calls `<[i64]>::sort_unstable`, which puts numbers into ascending order and
/// keeps each as often as it was there.
#[verifier::external_body]
fn sort_latencies(latencies: &mut Vec<i64>)
    ensures
        is_sorted(final(latencies)@),
        final(latencies)@.to_multiset() == old(latencies)@.to_multiset(),
        final(latencies)@.len() == old(latencies)@.len(),
{
    latencies.sort_unstable();
}

/// The value below which `percentile` percent of the sorted data lie.
pub fn calculate_percentile(sorted_data: &Vec<i64>, percentile: u64) -> (value: i64)
    ensures
        value == percentile_of(sorted_data@, percentile as int),
{
    let len: usize = sorted_data.len();
    if len == 0 {
        return 0;
    }
    assert(len as int * percentile as int <= u64::MAX * u64::MAX) by (nonlinear_arith)
        requires
            0 <= len <= u64::MAX,
            0 <= percentile <= u64::MAX,
    ;
    assert(0 <= len as int * percentile as int) by (nonlinear_arith)
        requires
            0 <= len,
            0 <= percentile,
    ;
    let index: u128 = len as u128 * percentile as u128 / 100;
    if index < len as u128 {
        sorted_data[index as usize]
    } else {
        sorted_data[len - 1]
    }
}

fn sum_latencies(latencies: &Vec<i64>) -> (sum: i128)
    ensures
        sum == sum_of(latencies@),
{
    let len: usize = latencies.len();
    let mut sum: i128 = 0;
    let mut done: usize = 0;
    assert(latencies@.take(0) =~= Seq::empty());
    while done < len
        invariant
            len == latencies@.len(),
            done <= len,
            sum == sum_of(latencies@.take(done as int)),
            i64::MIN * done <= sum <= i64::MAX * done,
        decreases len - done,
    {
        assert(latencies@.take(done + 1).drop_last() =~= latencies@.take(done as int));
        assert(done < u64::MAX);
        sum = sum + latencies[done] as i128;
        done = done + 1;
    }
    assert(latencies@.take(len as int) =~= latencies@);
    sum
}

impl MetricsCollector {
    /// Whether nothing has been recorded.
    pub open spec fn is_empty(self) -> bool {
        &&& self.latencies@.len() == 0
        &&& self.completed == 0
        &&& self.errors == 0
    }

    /// Whether `after` is the collector once it has been recorded what became of
    /// a request: its latency, or that it failed.
    pub open spec fn records(self, latency_micros: Option<i64>, after: MetricsCollector) -> bool {
        match latency_micros {
            Some(latency) => {
                &&& after.latencies@ == self.latencies@.push(latency)
                &&& after.completed == counted(self.completed)
                &&& after.errors == self.errors
            },
            None => after == (MetricsCollector { errors: counted(self.errors), ..self }),
        }
    }

    pub fn new() -> (collector: Self)
        ensures
            collector.is_empty(),
    {
        MetricsCollector { latencies: Vec::new(), completed: 0, errors: 0 }
    }

    /// Record a successful request latency (in microseconds)
    pub fn record_latency(&mut self, latency_micros: i64)
        ensures
            old(self).records(Some(latency_micros), *final(self)),
    {
        self.completed = count(self.completed);
        self.latencies.push(latency_micros);
    }

    /// Record what became of a request: its latency (in microseconds), or that
    /// it failed or was not answered in time.
    pub fn record_outcome(&mut self, latency_micros: Option<i64>)
        ensures
            old(self).records(latency_micros, *final(self)),
    {
        match latency_micros {
            Some(latency) => self.record_latency(latency),
            None => self.record_error(),
        }
    }

    /// Record an error
    pub fn record_error(&mut self)
        ensures
            old(self).records(None, *final(self)),
    {
        self.errors = count(self.errors);
    }

    /// Get completed count
    pub fn completed(&self) -> (completed: u64)
        ensures
            completed == self.completed,
    {
        self.completed
    }

    /// Get current stats. Puts the latencies in order.
    pub fn summary(&mut self) -> (summary: LatencySummary)
        ensures
            is_sorted(final(self).latencies@),
            final(self).latencies@.to_multiset() == old(self).latencies@.to_multiset(),
            final(self).completed == old(self).completed,
            final(self).errors == old(self).errors,
            summary == (LatencySummary {
                completed: old(self).completed,
                errors: old(self).errors,
                p50_micros: percentile_of(final(self).latencies@, 50),
                p75_micros: percentile_of(final(self).latencies@, 75),
                p95_micros: percentile_of(final(self).latencies@, 95),
                p99_micros: percentile_of(final(self).latencies@, 99),
                min_micros: percentile_of(final(self).latencies@, 0),
                max_micros: percentile_of(final(self).latencies@, 100),
                sum_micros: sum_of(final(self).latencies@) as i128,
                count: old(self).latencies@.len() as usize,
            }),
    {
        sort_latencies(&mut self.latencies);
        let len: usize = self.latencies.len();
        let (min_micros, max_micros) = if len == 0 {
            (0, 0)
        } else {
            (self.latencies[0], self.latencies[len - 1])
        };
        let p50_micros: i64 = calculate_percentile(&self.latencies, 50);
        let p75_micros: i64 = calculate_percentile(&self.latencies, 75);
        let p95_micros: i64 = calculate_percentile(&self.latencies, 95);
        let p99_micros: i64 = calculate_percentile(&self.latencies, 99);
        let sum_micros: i128 = sum_latencies(&self.latencies);
        LatencySummary {
            completed: self.completed,
            errors: self.errors,
            p50_micros,
            p75_micros,
            p95_micros,
            p99_micros,
            min_micros,
            max_micros,
            sum_micros,
            count: len,
        }
    }
}

/// One record after the other: `collectors` holds the collector before and after
/// each of them.
pub open spec fn are_records(collectors: Seq<MetricsCollector>, outcomes: Seq<Option<i64>>) -> bool {
    &&& collectors.len() == outcomes.len() + 1
    &&& forall|i: int|
        0 <= i < outcomes.len() ==> (#[trigger] collectors[i]).records(
            outcomes[i],
            collectors[i + 1],
        )
}

/// The latencies among what became of some requests, in order.
pub open spec fn latencies_in(outcomes: Seq<Option<i64>>) -> Seq<i64>
    decreases outcomes.len(),
{
    if outcomes.len() == 0 {
        Seq::empty()
    } else {
        match outcomes.last() {
            Some(latency) => latencies_in(outcomes.drop_last()).push(latency),
            None => latencies_in(outcomes.drop_last()),
        }
    }
}

/// Only successful requests count as completed: after any number of records in
/// any order, the completed count is the number of latencies recorded, and every
/// other record is an error. A counter that has come round starts again.
pub proof fn law_completed_counts_latencies(
    collectors: Seq<MetricsCollector>,
    outcomes: Seq<Option<i64>>,
)
    requires
        are_records(collectors, outcomes),
        collectors[0].is_empty(),
    ensures
        collectors.last().latencies@ == latencies_in(outcomes),
        latencies_in(outcomes).len() <= outcomes.len(),
        latencies_in(outcomes).len() <= u64::MAX ==> collectors.last().completed == latencies_in(
            outcomes,
        ).len(),
        outcomes.len() - latencies_in(outcomes).len() <= u64::MAX ==> collectors.last().errors
            == outcomes.len() - latencies_in(outcomes).len(),
    decreases outcomes.len(),
{
    if outcomes.len() == 0 {
        assert(collectors.last().latencies@ =~= Seq::empty());
    } else {
        let last = outcomes.len() - 1;
        let earlier = collectors.drop_last();
        assert forall|i: int| 0 <= i < last implies (#[trigger] earlier[i]).records(
            outcomes.drop_last()[i],
            earlier[i + 1],
        ) by {
            assert(collectors[i].records(outcomes[i], collectors[i + 1]));
        }
        law_completed_counts_latencies(earlier, outcomes.drop_last());
        assert(collectors[last].records(outcomes[last], collectors[last + 1]));
    }
}

/// Percentiles do not fall as the percentage rises, and lie between the smallest
/// and the largest latency.
pub proof fn law_percentiles_are_ordered(sorted_data: Seq<i64>, low: int, high: int)
    requires
        is_sorted(sorted_data),
        0 <= low <= high,
    ensures
        percentile_of(sorted_data, low) <= percentile_of(sorted_data, high),
        percentile_of(sorted_data, 0) <= percentile_of(sorted_data, low),
        percentile_of(sorted_data, high) <= percentile_of(sorted_data, 100) || high > 100,
{
    if sorted_data.len() > 0 {
        let len = sorted_data.len() as int;
        assert(0 <= len * low <= len * high) by (nonlinear_arith)
            requires
                0 <= low <= high,
                0 <= len,
        ;
        if high <= 100 {
            assert(len * high <= len * 100) by (nonlinear_arith)
                requires
                    high <= 100,
                    0 <= len,
            ;
        }
    }
}

/// How many of so many requests of a mixed load are counted at a time.
pub const MIX_SCALE: u64 = 10_000;

/// Whether a request of some hash is a write, so that about `writes` of
/// [`MIX_SCALE`] requests are, whose hashes are spread evenly.
pub open spec fn is_write(request_hash: u64, writes: u64) -> bool {
    request_hash % MIX_SCALE < writes
}

/// Determines from the hash of a request if it should be a write.
pub fn should_write_hashed(request_hash: u64, writes: u64) -> (write: bool)
    ensures
        write == is_write(request_hash, writes),
{
    request_hash % MIX_SCALE < writes
}

/// The hash of a request: what a new hasher of std makes of its number, written
/// as eight bytes, the lowest first.
pub open spec fn request_hash(request_id: u64) -> u64 {
    DefaultHasher::spec_finish(seq![little_endian::to_bytes(request_id as nat, 8)])
}

/// Determines if a request should be a write based on the request_id and on how
/// many of [`MIX_SCALE`] requests should be. Uses hashing to get a pseudo-random
/// but deterministic distribution.
pub fn should_write(request_id: u64, writes: u64) -> (write: bool)
    ensures
        write == is_write(request_hash(request_id), writes),
{
    let mut bytes: Vec<u8> = Vec::new();
    little_endian::push_bytes(&mut bytes, request_id, 8);
    let mut hasher = DefaultHasher::new();
    hasher.write(bytes.as_slice());
    assert(hasher@ =~= seq![little_endian::to_bytes(request_id as nat, 8)]);
    should_write_hashed(hasher.finish(), writes)
}

/// The number of the next request, of `max_requests` in all. The first is 0.
pub fn next_request(next_request_id: &mut u64, max_requests: u64) -> (request_id: Option<u64>)
    ensures
        *old(next_request_id) < max_requests ==> {
            &&& request_id == Some(*old(next_request_id))
            &&& *final(next_request_id) == *old(next_request_id) + 1
        },
        *old(next_request_id) >= max_requests ==> {
            &&& request_id is None
            &&& *final(next_request_id) == *old(next_request_id)
        },
{
    let request_id: u64 = *next_request_id;
    if request_id >= max_requests {
        None
    } else {
        *next_request_id = request_id + 1;
        Some(request_id)
    }
}

/// Which of `channels` servers gets the request.
pub fn channel_of(request_id: u64, channels: usize) -> (channel: usize)
    requires
        channels > 0,
    ensures
        channel == request_id as int % channels as int,
{
    (request_id % channels as u64) as usize
}

/// The key that a request reads or writes.
pub fn request_key(request_id: u64) -> (key: String)
    ensures
        key@ == text::decimal(request_id as nat),
{
    text::decimal_text(request_id)
}

/// The value that a request writes.
pub fn request_value(request_id: u64) -> (value: String)
    ensures
        value@ == "value-"@ + text::decimal(request_id as nat),
{
    let number = text::decimal_text(request_id);
    text::concat2("value-", number.as_str())
}

/// A percentile cuts the sorted latencies in two: it is one of them, so many percent
/// of them stand before it, rounded down, and none of those is larger, nor is any
/// behind it smaller. Without latencies it is 0.
pub proof fn law_percentile_cuts_the_latencies(sorted_data: Seq<i64>, percentile: int)
    requires
        is_sorted(sorted_data),
        0 <= percentile <= 100,
    ensures
        sorted_data.len() == 0 ==> percentile_of(sorted_data, percentile) == 0,
        sorted_data.len() > 0 ==> {
            let value = percentile_of(sorted_data, percentile);
            &&& sorted_data.contains(value)
            &&& forall|i: int|
                0 <= i < sorted_data.len() && i * 100 < sorted_data.len() * percentile
                    ==> #[trigger] sorted_data[i] <= value
            &&& forall|i: int|
                0 <= i < sorted_data.len() && i * 100 > sorted_data.len() * percentile
                    ==> #[trigger] sorted_data[i] >= value
            &&& percentile == 0 ==> value == sorted_data[0]
            &&& percentile == 100 ==> value == sorted_data[sorted_data.len() - 1]
        },
{
    if sorted_data.len() > 0 {
        let len = sorted_data.len() as int;
        let index = len * percentile / 100;
        let scaled = len * percentile;
        assert(0 <= scaled <= len * 100) by (nonlinear_arith)
            requires
                0 <= len,
                0 <= percentile <= 100,
                scaled == len * percentile,
        ;
        if percentile == 100 {
            assert(scaled == len * 100);
            assert(percentile_of(sorted_data, percentile) == sorted_data[len - 1]);
        }
        if index < len {
            assert(sorted_data[index] == percentile_of(sorted_data, percentile));
        } else {
            assert(sorted_data[len - 1] == percentile_of(sorted_data, percentile));
        }
    }
}

/// The sum of two lists of latencies is the sum of both.
pub proof fn law_sums_add_up(first: Seq<i64>, second: Seq<i64>)
    ensures
        sum_of(first + second) == sum_of(first) + sum_of(second),
        second.len() == 1 ==> sum_of(second) == second[0],
    decreases second.len(),
{
    if second.len() == 0 {
        assert(first + second =~= first);
    } else {
        law_sums_add_up(first, second.drop_last());
        assert((first + second).drop_last() =~= first + second.drop_last());
        if second.len() == 1 {
            assert(second.drop_last() =~= Seq::empty());
        }
    }
}

/// The share of writes can be set from none to all of the requests, and what is a
/// write stays one where the share grows.
pub proof fn law_share_of_writes(hash: u64, few: u64, many: u64)
    requires
        few <= many,
    ensures
        !is_write(hash, 0),
        is_write(hash, 10_000),
        is_write(hash, few) ==> is_write(hash, many),
        hash < 10_000 ==> (is_write(hash, few) <==> hash < few),
        hash < u64::MAX - 10_000 ==> is_write((hash + 10_000) as u64, few) == is_write(hash, few),
{
}

} // verus!
