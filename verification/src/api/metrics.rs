//! Counters and histograms, and their text for Prometheus.

use vstd::prelude::*;

use crate::scan::{first_in, lemma_first_in};
use crate::text::{decimal, padded, push_decimal, push_padded};

verus! {

/// The number of finite buckets of a histogram.
pub const NUM_BUCKETS: usize = 13;

/// The largest time, in nanoseconds, that falls into finite bucket `i`.
pub open spec fn bound_of(i: int) -> u64 {
    if i == 0 {
        100_000
    } else if i == 1 {
        250_000
    } else if i == 2 {
        500_000
    } else if i == 3 {
        1_000_000
    } else if i == 4 {
        2_500_000
    } else if i == 5 {
        5_000_000
    } else if i == 6 {
        10_000_000
    } else if i == 7 {
        25_000_000
    } else if i == 8 {
        50_000_000
    } else if i == 9 {
        100_000_000
    } else if i == 10 {
        250_000_000
    } else if i == 11 {
        500_000_000
    } else {
        1_000_000_000
    }
}

/// The bound of finite bucket `i` in milliseconds, as text.
pub open spec fn label_of(i: int) -> Seq<char> {
    if i == 0 {
        "0.1"@
    } else if i == 1 {
        "0.25"@
    } else if i == 2 {
        "0.5"@
    } else if i == 3 {
        "1"@
    } else if i == 4 {
        "2.5"@
    } else if i == 5 {
        "5"@
    } else if i == 6 {
        "10"@
    } else if i == 7 {
        "25"@
    } else if i == 8 {
        "50"@
    } else if i == 9 {
        "100"@
    } else if i == 10 {
        "250"@
    } else if i == 11 {
        "500"@
    } else {
        "1000"@
    }
}

fn bucket_bound(i: usize) -> (r: u64)
    ensures
        r == bound_of(i as int),
{
    match i {
        0 => 100_000,
        1 => 250_000,
        2 => 500_000,
        3 => 1_000_000,
        4 => 2_500_000,
        5 => 5_000_000,
        6 => 10_000_000,
        7 => 25_000_000,
        8 => 50_000_000,
        9 => 100_000_000,
        10 => 250_000_000,
        11 => 500_000_000,
        _ => 1_000_000_000,
    }
}

/// The bound of finite bucket `i` in milliseconds, as text.
pub fn format_bucket(i: usize) -> (r: &'static str)
    ensures
        r@ == label_of(i as int),
{
    match i {
        0 => "0.1",
        1 => "0.25",
        2 => "0.5",
        3 => "1",
        4 => "2.5",
        5 => "5",
        6 => "10",
        7 => "25",
        8 => "50",
        9 => "100",
        10 => "250",
        11 => "500",
        _ => "1000",
    }
}

/// Whether a time is within the bound of a bucket.
pub open spec fn within_bound(nanos: u64) -> spec_fn(int) -> bool {
    |i: int| nanos <= bound_of(i)
}

/// The bucket that a time falls into: the first whose bound it does not exceed, or
/// the one without a bound.
pub open spec fn slot_of(nanos: u64) -> int {
    match first_in(within_bound(nanos), 0, NUM_BUCKETS as int) {
        Some(i) => i,
        None => NUM_BUCKETS as int,
    }
}

/// A histogram of times. Counters wrap around.
pub struct Histogram {
    buckets: [u64; 14],
    sum_us: u64,
    count: u64,
}

/// What a histogram holds: a counter for each bucket, the one without a bound last,
/// the sum of the times in microseconds, and their number.
#[verifier::ext_equal]
pub struct HistogramModel {
    pub buckets: Seq<u64>,
    pub sum_us: u64,
    pub count: u64,
}

impl View for Histogram {
    type V = HistogramModel;

    closed spec fn view(&self) -> HistogramModel {
        HistogramModel { buckets: self.buckets@, sum_us: self.sum_us, count: self.count }
    }
}

/// A histogram without any time.
pub open spec fn empty_histogram() -> HistogramModel {
    HistogramModel { buckets: Seq::new(14, |i: int| 0u64), sum_us: 0, count: 0 }
}

/// A histogram after a time was recorded.
pub open spec fn observed(h: HistogramModel, nanos: u64) -> HistogramModel {
    let slot = slot_of(nanos);
    HistogramModel {
        buckets: h.buckets.update(slot, h.buckets[slot].wrapping_add(1)),
        sum_us: h.sum_us.wrapping_add(nanos / 1000),
        count: h.count.wrapping_add(1),
    }
}

/// The sum of the first `n` counters.
pub open spec fn counter_sum(buckets: Seq<u64>, n: int) -> int
    decreases n,
{
    if n <= 0 {
        0
    } else {
        counter_sum(buckets, n - 1) + buckets[n - 1]
    }
}

/// The number of times in the first `n` buckets, as the counters have it.
pub open spec fn cumulative(h: HistogramModel, n: int) -> u64 {
    (counter_sum(h.buckets, n) % 0x1_0000_0000_0000_0000) as u64
}

/// The invariant of a histogram: every time is counted in one bucket.
pub open spec fn counts_agree(h: HistogramModel) -> bool {
    &&& h.buckets.len() == 14
    &&& cumulative(h, 14) == h.count
}

/// A number of microseconds in milliseconds, as text without trailing zeros.
pub open spec fn millis_text(us: nat) -> Seq<char> {
    if us % 1000 == 0 {
        decimal(us / 1000)
    } else if us % 100 == 0 {
        decimal(us / 1000) + "."@ + padded(us % 1000 / 100, 1)
    } else if us % 10 == 0 {
        decimal(us / 1000) + "."@ + padded(us % 1000 / 10, 2)
    } else {
        decimal(us / 1000) + "."@ + padded(us % 1000, 3)
    }
}

fn push_millis(out: &mut String, us: u64)
    ensures
        final(out)@ == old(out)@ + millis_text(us as nat),
{
    push_decimal(out, us / 1000);
    if us % 1000 != 0 {
        out.append(".");
        if us % 100 == 0 {
            push_padded(out, us % 1000 / 100, 1);
        } else if us % 10 == 0 {
            push_padded(out, us % 1000 / 10, 2);
        } else {
            push_padded(out, us % 1000, 3);
        }
    }
    proof {
        assert(out@ =~= old(out)@ + millis_text(us as nat));
    }
}

/// The line of bucket `i`.
pub open spec fn bucket_line(h: HistogramModel, name: Seq<char>, label: Seq<char>, i: int) -> Seq<
    char,
> {
    name + "_bucket{le=\""@ + label + "\"} "@ + decimal(cumulative(h, i + 1) as nat) + "\n"@
}

/// The lines of the first `n` finite buckets.
pub open spec fn bucket_lines(h: HistogramModel, name: Seq<char>, n: int) -> Seq<char>
    decreases n,
{
    if n <= 0 {
        seq![]
    } else {
        bucket_lines(h, name, n - 1) + bucket_line(h, name, label_of(n - 1), n - 1)
    }
}

/// The text of a histogram.
pub open spec fn histogram_text(h: HistogramModel, name: Seq<char>, help: Seq<char>) -> Seq<char> {
    "# HELP "@ + name + " "@ + help + "\n# TYPE "@ + name + " histogram\n"@ + bucket_lines(
        h,
        name,
        13,
    ) + bucket_line(h, name, "+Inf"@, 13) + name + "_sum "@ + millis_text(h.sum_us as nat) + "\n"@
        + name + "_count "@ + decimal(h.count as nat) + "\n"@
}

fn histogram_head(name: &str, help: &str) -> (r: String)
    ensures
        r@ == "# HELP "@ + name@ + " "@ + help@ + "\n# TYPE "@ + name@ + " histogram\n"@,
{
    let mut out: String = "# HELP ".to_string();
    out.append(name);
    out.append(" ");
    out.append(help);
    out.append("\n# TYPE ");
    out.append(name);
    out.append(" histogram\n");
    out
}

fn push_totals(out: &mut String, name: &str, sum_us: u64, count: u64)
    ensures
        final(out)@ == old(out)@ + name@ + "_sum "@ + millis_text(sum_us as nat) + "\n"@ + name@
            + "_count "@ + decimal(count as nat) + "\n"@,
{
    out.append(name);
    out.append("_sum ");
    push_millis(out, sum_us);
    out.append("\n");
    out.append(name);
    out.append("_count ");
    push_decimal(out, count);
    out.append("\n");
}

fn push_bucket_line(out: &mut String, name: &str, label: &str, count: u64)
    ensures
        final(out)@ == old(out)@ + (name@ + "_bucket{le=\""@ + label@ + "\"} "@ + decimal(
            count as nat,
        ) + "\n"@),
{
    out.append(name);
    out.append("_bucket{le=\"");
    out.append(label);
    out.append("\"} ");
    push_decimal(out, count);
    out.append("\n");
    proof {
        assert(out@ =~= old(out)@ + (name@ + "_bucket{le=\""@ + label@ + "\"} "@ + decimal(
            count as nat,
        ) + "\n"@));
    }
}

proof fn lemma_sum_after_update(b: Seq<u64>, slot: int, v: u64, n: int)
    requires
        0 <= slot < b.len(),
        0 <= n <= b.len(),
    ensures
        counter_sum(b.update(slot, v), n) == counter_sum(b, n) + if slot < n {
            v - b[slot]
        } else {
            0
        },
    decreases n,
{
    if n > 0 {
        lemma_sum_after_update(b, slot, v, n - 1);
    }
}

proof fn lemma_slot(nanos: u64)
    ensures
        0 <= slot_of(nanos) <= 13,
{
    lemma_first_in(within_bound(nanos), 0, NUM_BUCKETS as int);
}

/// Every time is counted in one bucket, however many were recorded.
pub proof fn law_counts_agree(h: HistogramModel, nanos: u64)
    requires
        counts_agree(h),
    ensures
        counts_agree(observed(h, nanos)),
        counts_agree(empty_histogram()),
{
    lemma_slot(nanos);
    let slot = slot_of(nanos);
    lemma_sum_after_update(h.buckets, slot, h.buckets[slot].wrapping_add(1), 14);
    reveal_with_fuel(counter_sum, 15);
}

/// The count of the bucket without a bound is the number of all times.
pub proof fn law_last_bucket_counts_all(h: HistogramModel, name: Seq<char>)
    requires
        counts_agree(h),
    ensures
        bucket_line(h, name, "+Inf"@, 13) == name + "_bucket{le=\""@ + "+Inf"@ + "\"} "@ + decimal(
            h.count as nat,
        ) + "\n"@,
{
}

/// The counts of the buckets do not fall from one to the next, as long as fewer than
/// two to the power of 64 times were recorded.
pub proof fn law_buckets_cumulative(h: HistogramModel, i: int, j: int)
    requires
        0 <= i <= j <= 14,
        h.buckets.len() == 14,
        counter_sum(h.buckets, 14) <= u64::MAX,
    ensures
        cumulative(h, i) <= cumulative(h, j),
{
    lemma_sum_monotonic(h.buckets, i, j);
    lemma_sum_monotonic(h.buckets, j, 14);
    lemma_sum_monotonic(h.buckets, 0, i);
}

proof fn lemma_sum_monotonic(b: Seq<u64>, i: int, j: int)
    requires
        0 <= i <= j,
    ensures
        counter_sum(b, i) <= counter_sum(b, j),
    decreases j - i,
{
    if i < j {
        lemma_sum_monotonic(b, i, j - 1);
    }
}

/// A time is counted in the buckets whose bound it does not exceed, and in no other
/// finite one.
pub proof fn law_observed_in_bounds(h: HistogramModel, nanos: u64, i: int)
    requires
        h.buckets.len() == 14,
        0 <= i < 13,
    ensures
        cumulative(observed(h, nanos), i + 1) == if nanos <= bound_of(i) {
            cumulative(h, i + 1).wrapping_add(1)
        } else {
            cumulative(h, i + 1)
        },
{
    lemma_slot(nanos);
    lemma_first_in(within_bound(nanos), 0, NUM_BUCKETS as int);
    let slot = slot_of(nanos);
    lemma_sum_after_update(h.buckets, slot, h.buckets[slot].wrapping_add(1), i + 1);
    if nanos <= bound_of(i) {
        assert(within_bound(nanos)(i));
        assert(slot <= i);
    } else {
        if slot <= i {
            assert(within_bound(nanos)(slot));
            assert(bound_of(slot) <= bound_of(i));
        }
    }
}

impl Histogram {
    /// A histogram without any time.
    pub fn new() -> (r: Self)
        ensures
            r@ == empty_histogram(),
    {
        let r = Histogram { buckets: [0;14], sum_us: 0, count: 0 };
        assert(r@.buckets =~= empty_histogram().buckets);
        r
    }

    /// Records a time in nanoseconds.
    pub fn observe(&mut self, nanos: u64)
        ensures
            final(self)@ == observed(old(self)@, nanos),
    {
        let mut slot: usize = 0;
        while slot < NUM_BUCKETS && nanos > bucket_bound(slot)
            invariant
                slot <= NUM_BUCKETS,
                first_in(within_bound(nanos), 0, NUM_BUCKETS as int) == first_in(
                    within_bound(nanos),
                    slot as int,
                    NUM_BUCKETS as int,
                ),
            decreases NUM_BUCKETS - slot,
        {
            slot += 1;
        }
        self.buckets[slot] = self.buckets[slot].wrapping_add(1);
        self.sum_us = self.sum_us.wrapping_add(nanos / 1000);
        self.count = self.count.wrapping_add(1);
        assert(self@ =~= observed(old(self)@, nanos));
    }

    /// The text of the histogram for Prometheus, under the metric `name`.
    pub fn render(&self, name: &str, help: &str) -> (r: String)
        ensures
            r@ == histogram_text(self@, name@, help@),
    {
        let mut out = histogram_head(name, help);
        self.push_buckets(&mut out, name);
        push_totals(&mut out, name, self.sum_us, self.count);
        out
    }

    fn push_buckets(&self, out: &mut String, name: &str)
        ensures
            final(out)@ == old(out)@ + bucket_lines(self@, name@, 13) + bucket_line(
                self@,
                name@,
                "+Inf"@,
                13,
            ),
    {
        let ghost head = out@;
        let mut count: u64 = 0;
        let mut i: usize = 0;
        assert(out@ =~= head + bucket_lines(self@, name@, 0));
        while i < NUM_BUCKETS
            invariant
                i <= NUM_BUCKETS,
                count == cumulative(self@, i as int),
                out@ == head + bucket_lines(self@, name@, i as int),
            decreases NUM_BUCKETS - i,
        {
            count = count.wrapping_add(self.buckets[i]);
            push_bucket_line(out, name, format_bucket(i), count);
            proof {
                let line = bucket_line(self@, name@, label_of(i as int), i as int);
                assert(head + bucket_lines(self@, name@, i as int) + line =~= head + (bucket_lines(
                    self@,
                    name@,
                    i as int,
                ) + line));
            }
            i += 1;
        }
        count = count.wrapping_add(self.buckets[NUM_BUCKETS]);
        push_bucket_line(out, name, "+Inf", count);
    }
}

/// What the server counts. Counters wrap around. An execution is code that was run;
/// a request that fails before its code is run is an early error.
pub struct Metrics {
    pub total_executions: u64,
    /// All errors, the early ones among them.
    pub total_errors: u64,
    pub early_errors: u64,
    pub total_timeouts: u64,
    pub concurrent_forks: u64,
    pub fork_time_sum_us: u64,
    pub exec_time_sum_us: u64,
    pub fork_time_hist: Histogram,
    pub exec_time_hist: Histogram,
    pub total_time_hist: Histogram,
}

/// What `Metrics` holds.
#[verifier::ext_equal]
pub struct MetricsModel {
    pub total_executions: u64,
    pub total_errors: u64,
    pub early_errors: u64,
    pub total_timeouts: u64,
    pub concurrent_forks: u64,
    pub fork_time_sum_us: u64,
    pub exec_time_sum_us: u64,
    pub fork_time_hist: HistogramModel,
    pub exec_time_hist: HistogramModel,
    pub total_time_hist: HistogramModel,
}

impl View for Metrics {
    type V = MetricsModel;

    open spec fn view(&self) -> MetricsModel {
        MetricsModel {
            total_executions: self.total_executions,
            total_errors: self.total_errors,
            early_errors: self.early_errors,
            total_timeouts: self.total_timeouts,
            concurrent_forks: self.concurrent_forks,
            fork_time_sum_us: self.fork_time_sum_us,
            exec_time_sum_us: self.exec_time_sum_us,
            fork_time_hist: self.fork_time_hist@,
            exec_time_hist: self.exec_time_hist@,
            total_time_hist: self.total_time_hist@,
        }
    }
}

/// The first number less the second, or 0 where the second is larger.
pub open spec fn minus(a: u64, b: u64) -> u64 {
    if a > b {
        (a - b) as u64
    } else {
        0
    }
}

/// The number of executions that neither failed nor ran out of time. Errors before
/// an execution take nothing away from it.
pub open spec fn successes(m: MetricsModel) -> u64 {
    minus(
        minus(m.total_executions, minus(m.total_errors, m.early_errors)),
        m.total_timeouts,
    )
}

/// The invariant of the counters: every early error is an error, and every other
/// error and every timeout is that of an execution.
pub open spec fn accounted(m: MetricsModel) -> bool {
    &&& m.early_errors <= m.total_errors
    &&& m.total_errors - m.early_errors + m.total_timeouts <= m.total_executions
}

/// Successes, errors and timeouts together are the executions and the requests that
/// failed before theirs.
pub proof fn law_statuses_add_up(m: MetricsModel)
    requires
        accounted(m),
    ensures
        successes(m) + m.total_errors + m.total_timeouts == m.total_executions + m.early_errors,
{
}

/// A line with a number behind a label.
pub open spec fn counter_line(label: Seq<char>, value: u64) -> Seq<char> {
    label + decimal(value as nat) + "\n"@
}

fn push_counter(out: &mut String, label: &str, value: u64)
    ensures
        final(out)@ == old(out)@ + counter_line(label@, value),
{
    out.append(label);
    push_decimal(out, value);
    out.append("\n");
    assert(out@ =~= old(out)@ + counter_line(label@, value));
}

/// The lines of the counters, with the memory that the server uses.
pub open spec fn counters_text(m: MetricsModel, rss_bytes: u64) -> Seq<char> {
    "# HELP zeroboot_total_executions Total number of executions\n# TYPE zeroboot_total_executions counter\n"@
        + counter_line("zeroboot_total_executions{status=\"success\"} "@, successes(m))
        + counter_line("zeroboot_total_executions{status=\"error\"} "@, m.total_errors)
        + counter_line("zeroboot_total_executions{status=\"timeout\"} "@, m.total_timeouts)
        + "# HELP zeroboot_concurrent_forks Current number of concurrent forks\n# TYPE zeroboot_concurrent_forks gauge\n"@
        + counter_line("zeroboot_concurrent_forks "@, m.concurrent_forks)
        + "# HELP zeroboot_fork_time_microseconds_total Sum of fork times\n# TYPE zeroboot_fork_time_microseconds_total counter\n"@
        + counter_line("zeroboot_fork_time_microseconds_total "@, m.fork_time_sum_us)
        + "# HELP zeroboot_exec_time_microseconds_total Sum of exec times\n# TYPE zeroboot_exec_time_microseconds_total counter\n"@
        + counter_line("zeroboot_exec_time_microseconds_total "@, m.exec_time_sum_us)
        + "# HELP zeroboot_memory_usage_bytes RSS memory usage\n# TYPE zeroboot_memory_usage_bytes gauge\n"@
        + counter_line("zeroboot_memory_usage_bytes "@, rss_bytes)
}

/// The text of the metrics for Prometheus, with the memory that the server uses.
pub open spec fn metrics_text(m: MetricsModel, rss_bytes: u64) -> Seq<char> {
    counters_text(m, rss_bytes) + histogram_text(
        m.fork_time_hist,
        "zeroboot_fork_time_milliseconds"@,
        "Histogram of VM fork times in milliseconds"@,
    ) + histogram_text(
        m.exec_time_hist,
        "zeroboot_exec_time_milliseconds"@,
        "Histogram of code execution times in milliseconds"@,
    ) + histogram_text(
        m.total_time_hist,
        "zeroboot_total_time_milliseconds"@,
        "Histogram of total request times in milliseconds"@,
    )
}

/// Metrics with nothing counted yet.
pub open spec fn fresh_metrics() -> MetricsModel {
    MetricsModel {
        total_executions: 0,
        total_errors: 0,
        early_errors: 0,
        total_timeouts: 0,
        concurrent_forks: 0,
        fork_time_sum_us: 0,
        exec_time_sum_us: 0,
        fork_time_hist: empty_histogram(),
        exec_time_hist: empty_histogram(),
        total_time_hist: empty_histogram(),
    }
}

impl Metrics {
    /// Metrics with nothing counted yet.
    pub fn new() -> (r: Self)
        ensures
            r@ == fresh_metrics(),
    {
        Metrics {
            total_executions: 0,
            total_errors: 0,
            early_errors: 0,
            total_timeouts: 0,
            concurrent_forks: 0,
            fork_time_sum_us: 0,
            exec_time_sum_us: 0,
            fork_time_hist: Histogram::new(),
            exec_time_hist: Histogram::new(),
            total_time_hist: Histogram::new(),
        }
    }

    /// The text of the metrics for Prometheus, with the memory that the server uses.
    pub fn render(&self, rss_bytes: u64) -> (r: String)
        ensures
            r@ == metrics_text(self@, rss_bytes),
    {
        let run_errors: u64 = self.total_errors.saturating_sub(self.early_errors);
        let success: u64 = self.total_executions.saturating_sub(run_errors).saturating_sub(
            self.total_timeouts,
        );
        let mut out = String::new();
        out.append(
            "# HELP zeroboot_total_executions Total number of executions\n# TYPE zeroboot_total_executions counter\n",
        );
        assert(out@ =~= "# HELP zeroboot_total_executions Total number of executions\n# TYPE zeroboot_total_executions counter\n"@);
        push_counter(&mut out, "zeroboot_total_executions{status=\"success\"} ", success);
        push_counter(&mut out, "zeroboot_total_executions{status=\"error\"} ", self.total_errors);
        push_counter(
            &mut out,
            "zeroboot_total_executions{status=\"timeout\"} ",
            self.total_timeouts,
        );
        out.append(
            "# HELP zeroboot_concurrent_forks Current number of concurrent forks\n# TYPE zeroboot_concurrent_forks gauge\n",
        );
        push_counter(&mut out, "zeroboot_concurrent_forks ", self.concurrent_forks);
        out.append(
            "# HELP zeroboot_fork_time_microseconds_total Sum of fork times\n# TYPE zeroboot_fork_time_microseconds_total counter\n",
        );
        push_counter(
            &mut out,
            "zeroboot_fork_time_microseconds_total ",
            self.fork_time_sum_us,
        );
        out.append(
            "# HELP zeroboot_exec_time_microseconds_total Sum of exec times\n# TYPE zeroboot_exec_time_microseconds_total counter\n",
        );
        push_counter(
            &mut out,
            "zeroboot_exec_time_microseconds_total ",
            self.exec_time_sum_us,
        );
        out.append(
            "# HELP zeroboot_memory_usage_bytes RSS memory usage\n# TYPE zeroboot_memory_usage_bytes gauge\n",
        );
        push_counter(&mut out, "zeroboot_memory_usage_bytes ", rss_bytes);
        assert(out@ == counters_text(self@, rss_bytes));
        let fork = self.fork_time_hist.render(
            "zeroboot_fork_time_milliseconds",
            "Histogram of VM fork times in milliseconds",
        );
        out.append(fork.as_str());
        let exec = self.exec_time_hist.render(
            "zeroboot_exec_time_milliseconds",
            "Histogram of code execution times in milliseconds",
        );
        out.append(exec.as_str());
        let total = self.total_time_hist.render(
            "zeroboot_total_time_milliseconds",
            "Histogram of total request times in milliseconds",
        );
        out.append(total.as_str());
        out
    }
}

} // verus!
