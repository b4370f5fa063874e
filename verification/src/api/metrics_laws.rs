//! What the text of the metrics reports, and under which name.

use vstd::prelude::*;

use crate::api::metrics::{
    bound_of, bucket_line, bucket_lines, counter_line, counter_sum, counters_text, cumulative,
    empty_histogram, fresh_metrics, histogram_text, label_of, metrics_text,
    law_counts_agree, law_observed_in_bounds, millis_text, observed, successes, HistogramModel, MetricsModel,
};
use crate::scan::lemma_first_in;
use crate::text::{
    char_at, decimal, digits_value, find_char, has_prefix, lemma_decimal_value, lemma_padded_len,
    occurs, padded, pow10, stands_at, zeros,
};
use crate::text_laws::{
    lacks, law_find_char, law_find_no_char, law_occurs, law_stripped, lemma_decimal_digits, lemma_padded_digits, lemma_stands,
    lemma_stands_chars,
};

verus! {

/// Whether a text has a line, which is neither the first nor cut off.
#[verifier::opaque]
pub open spec fn has_line(text: Seq<char>, line: Seq<char>) -> bool {
    occurs(text, seq!['\n'] + line + seq!['\n'])
}

proof fn lemma_line_between(a: Seq<char>, line: Seq<char>, b: Seq<char>)
    requires
        a.len() > 0,
        a.last() == '\n',
    ensures
        has_line(a + (line + seq!['\n']) + b, line),
{
    reveal(has_line);
    let s = a + (line + seq!['\n']) + b;
    assert(s =~= a.drop_last() + (seq!['\n'] + line + seq!['\n']) + b);
    law_occurs(a.drop_last(), seq!['\n'] + line + seq!['\n'], b);
}

proof fn lemma_line_kept(a: Seq<char>, text: Seq<char>, b: Seq<char>, line: Seq<char>)
    requires
        has_line(text, line),
    ensures
        has_line(a + text + b, line),
{
    reveal(has_line);
    let full = seq!['\n'] + line + seq!['\n'];
    let i = choose|i: int| #[trigger] stands_at(text, full, i);
    assert forall|k: int| 0 <= k < full.len() implies #[trigger] full[k] == (a + text + b)[a.len()
        + i + k] by {
        lemma_stands_chars(text, full, i, k);
    }
    lemma_stands(a + text + b, full, a.len() + i);
}

/// The line of a histogram for the times up to a bound.
pub open spec fn bound_line(name: Seq<char>, label: Seq<char>, count: u64) -> Seq<char> {
    name + "_bucket{le=\""@ + label + "\"} "@ + decimal(count as nat)
}

proof fn lemma_newline()
    ensures
        "\n"@ == seq!['\n'],
{
    reveal_strlit("\n");
    assert("\n"@ =~= seq!['\n']);
}

proof fn lemma_bucket_lines(h: HistogramModel, name: Seq<char>, n: int, i: int, a: Seq<char>)
    requires
        0 <= i < n,
        a.len() > 0,
        a.last() == '\n',
    ensures
        has_line(a + bucket_lines(h, name, n), bound_line(name, label_of(i), cumulative(h, i + 1))),
        bucket_lines(h, name, n).len() > 0,
        bucket_lines(h, name, n).last() == '\n',
    decreases n,
{
    lemma_newline();
    let before = bucket_lines(h, name, n - 1);
    let last = bucket_line(h, name, label_of(n - 1), n - 1);
    let body = bound_line(name, label_of(n - 1), cumulative(h, n));
    let none = Seq::<char>::empty();
    assert(last =~= body + seq!['\n']);
    if n > 1 {
        lemma_bucket_lines(h, name, n - 1, if i < n - 1 { i } else { 0 }, a);
    }
    let text = a + bucket_lines(h, name, n);
    if i < n - 1 {
        assert(text =~= none + (a + before) + last);
        lemma_line_kept(
            none,
            a + before,
            last,
            bound_line(name, label_of(i), cumulative(h, i + 1)),
        );
    } else {
        assert((a + before).last() == '\n') by {
            if n == 1 {
                assert(a + before =~= a);
            }
        }
        assert(text =~= (a + before) + (body + seq!['\n']) + none);
        lemma_line_between(a + before, body, none);
    }
}

/// The text of a histogram holds, under its name, the count of the times up to each
/// bound, of all times, and their sum and number.
pub proof fn law_histogram_lines(h: HistogramModel, name: Seq<char>, help: Seq<char>)
    ensures
        ({
            let text = histogram_text(h, name, help);
            &&& forall|i: int|
                0 <= i < 13 ==> has_line(
                    text,
                    #[trigger] bound_line(name, label_of(i), cumulative(h, i + 1)),
                )
            &&& has_line(text, bound_line(name, "+Inf"@, cumulative(h, 14)))
            &&& has_line(text, name + "_sum "@ + millis_text(h.sum_us as nat))
            &&& has_line(text, name + "_count "@ + decimal(h.count as nat))
            &&& text.len() > 0
            &&& text.last() == '\n'
        }),
{
    lemma_newline();
    let text = histogram_text(h, name, help);
    let none = Seq::<char>::empty();
    let head = "# HELP "@ + name + " "@ + help + "\n# TYPE "@ + name + " histogram\n"@;
    reveal_strlit(" histogram\n");
    assert(head.last() == '\n');
    let lines = bucket_lines(h, name, 13);
    let all = bound_line(name, "+Inf"@, cumulative(h, 14));
    let sum = name + "_sum "@ + millis_text(h.sum_us as nat);
    let count = name + "_count "@ + decimal(h.count as nat);
    let nl = seq!['\n'];
    let rest = (all + nl) + (sum + nl) + (count + nl);
    assert(bucket_line(h, name, "+Inf"@, 13) =~= all + nl);
    assert(text =~= none + (head + lines) + rest);
    assert forall|i: int| 0 <= i < 13 implies has_line(
        text,
        #[trigger] bound_line(name, label_of(i), cumulative(h, i + 1)),
    ) by {
        lemma_bucket_lines(h, name, 13, i, head);
        lemma_line_kept(
            none,
            head + lines,
            rest,
            bound_line(name, label_of(i), cumulative(h, i + 1)),
        );
    }
    lemma_bucket_lines(h, name, 13, 0, head);
    let a = head + lines;
    assert(a.last() == '\n');
    assert(text =~= a + (all + nl) + ((sum + nl) + (count + nl)));
    lemma_line_between(a, all, (sum + nl) + (count + nl));
    let b = a + (all + nl);
    assert(text =~= b + (sum + nl) + (count + nl));
    lemma_line_between(b, sum, count + nl);
    let c = b + (sum + nl);
    assert(text =~= c + (count + nl) + none);
    lemma_line_between(c, count, none);
}

/// Whether a text holds the lines of a histogram under a name.
pub open spec fn reports_times(text: Seq<char>, name: Seq<char>, h: HistogramModel) -> bool {
    &&& forall|i: int|
        0 <= i < 13 ==> has_line(
            text,
            #[trigger] bound_line(name, label_of(i), cumulative(h, i + 1)),
        )
    &&& has_line(text, bound_line(name, "+Inf"@, cumulative(h, 14)))
    &&& has_line(text, name + "_sum "@ + millis_text(h.sum_us as nat))
    &&& has_line(text, name + "_count "@ + decimal(h.count as nat))
}

proof fn lemma_reported_within(
    a: Seq<char>,
    b: Seq<char>,
    h: HistogramModel,
    name: Seq<char>,
    help: Seq<char>,
)
    ensures
        reports_times(a + histogram_text(h, name, help) + b, name, h),
{
    let text = histogram_text(h, name, help);
    law_histogram_lines(h, name, help);
    assert forall|i: int| 0 <= i < 13 implies has_line(
        a + text + b,
        #[trigger] bound_line(name, label_of(i), cumulative(h, i + 1)),
    ) by {
        lemma_line_kept(a, text, b, bound_line(name, label_of(i), cumulative(h, i + 1)));
    }
    lemma_line_kept(a, text, b, bound_line(name, "+Inf"@, cumulative(h, 14)));
    lemma_line_kept(a, text, b, name + "_sum "@ + millis_text(h.sum_us as nat));
    lemma_line_kept(a, text, b, name + "_count "@ + decimal(h.count as nat));
}

/// Fork times, execution times and total times are each reported under the metric
/// that bears their name.
pub proof fn law_times_reported(m: MetricsModel, rss_bytes: u64)
    ensures
        ({
            let text = metrics_text(m, rss_bytes);
            &&& reports_times(text, "zeroboot_fork_time_milliseconds"@, m.fork_time_hist)
            &&& reports_times(text, "zeroboot_exec_time_milliseconds"@, m.exec_time_hist)
            &&& reports_times(text, "zeroboot_total_time_milliseconds"@, m.total_time_hist)
        }),
{
    let text = metrics_text(m, rss_bytes);
    let c = counters_text(m, rss_bytes);
    let fork_help = "Histogram of VM fork times in milliseconds"@;
    let exec_help = "Histogram of code execution times in milliseconds"@;
    let total_help = "Histogram of total request times in milliseconds"@;
    let f = histogram_text(m.fork_time_hist, "zeroboot_fork_time_milliseconds"@, fork_help);
    let e = histogram_text(m.exec_time_hist, "zeroboot_exec_time_milliseconds"@, exec_help);
    let t = histogram_text(m.total_time_hist, "zeroboot_total_time_milliseconds"@, total_help);
    let none = Seq::<char>::empty();
    assert(text =~= c + f + (e + t));
    assert(text =~= (c + f) + e + t);
    assert(text =~= (c + f + e) + t + none);
    lemma_reported_within(
        c,
        e + t,
        m.fork_time_hist,
        "zeroboot_fork_time_milliseconds"@,
        fork_help,
    );
    lemma_reported_within(
        c + f,
        t,
        m.exec_time_hist,
        "zeroboot_exec_time_milliseconds"@,
        exec_help,
    );
    lemma_reported_within(
        c + f + e,
        none,
        m.total_time_hist,
        "zeroboot_total_time_milliseconds"@,
        total_help,
    );
}

proof fn lemma_counter_line(a: Seq<char>, label: Seq<char>, value: u64)
    requires
        ends_line(a),
    ensures
        has_line(a + counter_line(label, value), label + decimal(value as nat)),
        ends_line(a + counter_line(label, value)),
{
    lemma_newline();
    let line = label + decimal(value as nat);
    let none = Seq::<char>::empty();
    assert(counter_line(label, value) =~= line + seq!['\n']);
    lemma_line_between(a, line, none);
    assert(a + (line + seq!['\n']) + none =~= a + counter_line(label, value));
}

proof fn lemma_more(a: Seq<char>, b: Seq<char>)
    ensures
        forall|line: Seq<char>| has_line(a, line) ==> #[trigger] has_line(a + b, line),
        ends_line(b) ==> ends_line(a + b),
{
    let none = Seq::<char>::empty();
    assert forall|line: Seq<char>| has_line(a, line) implies #[trigger] has_line(
        a + b,
        line,
    ) by {
        lemma_line_kept(none, a, b, line);
        assert(none + a + b =~= a + b);
    }
}

proof fn lemma_section(a: Seq<char>, head: Seq<char>, label: Seq<char>, value: u64)
    requires
        ends_line(head),
    ensures
        ({
            let all = a + head + counter_line(label, value);
            &&& has_line(all, label + decimal(value as nat))
            &&& ends_line(all)
            &&& forall|line: Seq<char>| has_line(a, line) ==> #[trigger] has_line(all, line)
        }),
{
    lemma_more(a, head);
    lemma_counter_line(a + head, label, value);
    lemma_more(a + head, counter_line(label, value));
}

/// Each counter is reported under its own name.
#[verifier::rlimit(30)]
pub proof fn law_counters_reported(m: MetricsModel, rss_bytes: u64)
    ensures
        ({
            let text = metrics_text(m, rss_bytes);
            &&& has_line(
                text,
                "zeroboot_total_executions{status=\"success\"} "@ + decimal(successes(m) as nat),
            )
            &&& has_line(
                text,
                "zeroboot_total_executions{status=\"error\"} "@ + decimal(m.total_errors as nat),
            )
            &&& has_line(
                text,
                "zeroboot_total_executions{status=\"timeout\"} "@ + decimal(
                    m.total_timeouts as nat,
                ),
            )
            &&& has_line(
                text,
                "zeroboot_concurrent_forks "@ + decimal(m.concurrent_forks as nat),
            )
            &&& has_line(
                text,
                "zeroboot_fork_time_microseconds_total "@ + decimal(m.fork_time_sum_us as nat),
            )
            &&& has_line(
                text,
                "zeroboot_exec_time_microseconds_total "@ + decimal(m.exec_time_sum_us as nat),
            )
            &&& has_line(text, "zeroboot_memory_usage_bytes "@ + decimal(rss_bytes as nat))
        }),
{
    let h1 = "# HELP zeroboot_total_executions Total number of executions\n# TYPE zeroboot_total_executions counter\n"@;
    let h4 = "# HELP zeroboot_concurrent_forks Current number of concurrent forks\n# TYPE zeroboot_concurrent_forks gauge\n"@;
    let h5 = "# HELP zeroboot_fork_time_microseconds_total Sum of fork times\n# TYPE zeroboot_fork_time_microseconds_total counter\n"@;
    let h6 = "# HELP zeroboot_exec_time_microseconds_total Sum of exec times\n# TYPE zeroboot_exec_time_microseconds_total counter\n"@;
    let h7 = "# HELP zeroboot_memory_usage_bytes RSS memory usage\n# TYPE zeroboot_memory_usage_bytes gauge\n"@;
    let success = "zeroboot_total_executions{status=\"success\"} "@;
    let error = "zeroboot_total_executions{status=\"error\"} "@;
    let timeout = "zeroboot_total_executions{status=\"timeout\"} "@;
    let forks = "zeroboot_concurrent_forks "@;
    let fork_sum = "zeroboot_fork_time_microseconds_total "@;
    let exec_sum = "zeroboot_exec_time_microseconds_total "@;
    let memory = "zeroboot_memory_usage_bytes "@;
    lemma_heads();
    let p1 = h1 + counter_line(success, successes(m));
    lemma_counter_line(h1, success, successes(m));
    let p2 = p1 + counter_line(error, m.total_errors);
    lemma_counter_line(p1, error, m.total_errors);
    lemma_more(p1, counter_line(error, m.total_errors));
    let p3 = p2 + counter_line(timeout, m.total_timeouts);
    lemma_counter_line(p2, timeout, m.total_timeouts);
    lemma_more(p2, counter_line(timeout, m.total_timeouts));
    let p4 = p3 + h4 + counter_line(forks, m.concurrent_forks);
    lemma_section(p3, h4, forks, m.concurrent_forks);
    let p5 = p4 + h5 + counter_line(fork_sum, m.fork_time_sum_us);
    lemma_section(p4, h5, fork_sum, m.fork_time_sum_us);
    let p6 = p5 + h6 + counter_line(exec_sum, m.exec_time_sum_us);
    lemma_section(p5, h6, exec_sum, m.exec_time_sum_us);
    let p7 = p6 + h7 + counter_line(memory, rss_bytes);
    lemma_section(p6, h7, memory, rss_bytes);
    assert(p7 == counters_text(m, rss_bytes));
    let f = histogram_text(
        m.fork_time_hist,
        "zeroboot_fork_time_milliseconds"@,
        "Histogram of VM fork times in milliseconds"@,
    );
    let e = histogram_text(
        m.exec_time_hist,
        "zeroboot_exec_time_milliseconds"@,
        "Histogram of code execution times in milliseconds"@,
    );
    let t = histogram_text(
        m.total_time_hist,
        "zeroboot_total_time_milliseconds"@,
        "Histogram of total request times in milliseconds"@,
    );
    lemma_more(p7, f);
    lemma_more(p7 + f, e);
    lemma_more(p7 + f + e, t);
    assert(p7 + f + e + t == metrics_text(m, rss_bytes));
}

/// Whether a text ends with the end of a line.
pub open spec fn ends_line(s: Seq<char>) -> bool {
    s.len() > 0 && s.last() == '\n'
}

proof fn lemma_heads()
    ensures
        ends_line(
            "# HELP zeroboot_total_executions Total number of executions\n# TYPE zeroboot_total_executions counter\n"@,
        ),
        ends_line(
            "# HELP zeroboot_concurrent_forks Current number of concurrent forks\n# TYPE zeroboot_concurrent_forks gauge\n"@,
        ),
        ends_line(
            "# HELP zeroboot_fork_time_microseconds_total Sum of fork times\n# TYPE zeroboot_fork_time_microseconds_total counter\n"@,
        ),
        ends_line(
            "# HELP zeroboot_exec_time_microseconds_total Sum of exec times\n# TYPE zeroboot_exec_time_microseconds_total counter\n"@,
        ),
        ends_line(
            "# HELP zeroboot_memory_usage_bytes RSS memory usage\n# TYPE zeroboot_memory_usage_bytes gauge\n"@,
        ),
{
    reveal_strlit(
        "# HELP zeroboot_total_executions Total number of executions\n# TYPE zeroboot_total_executions counter\n",
    );
    reveal_strlit(
        "# HELP zeroboot_concurrent_forks Current number of concurrent forks\n# TYPE zeroboot_concurrent_forks gauge\n",
    );
    reveal_strlit(
        "# HELP zeroboot_fork_time_microseconds_total Sum of fork times\n# TYPE zeroboot_fork_time_microseconds_total counter\n",
    );
    reveal_strlit(
        "# HELP zeroboot_exec_time_microseconds_total Sum of exec times\n# TYPE zeroboot_exec_time_microseconds_total counter\n",
    );
    reveal_strlit(
        "# HELP zeroboot_memory_usage_bytes RSS memory usage\n# TYPE zeroboot_memory_usage_bytes gauge\n",
    );
}

/// How long the first line of a text is, with its end.
pub open spec fn first_line(text: Seq<char>) -> int {
    match find_char(text, '\n') {
        Some(p) => if 0 <= p < text.len() {
            p + 1
        } else {
            text.len() as int
        },
        None => text.len() as int,
    }
}

/// A text without the lines that start with a prefix.
pub open spec fn without_lines(text: Seq<char>, prefix: Seq<char>) -> Seq<char>
    decreases text.len(),
{
    if text.len() == 0 {
        text
    } else {
        let n = first_line(text);
        let rest = without_lines(text.skip(n), prefix);
        if has_prefix(text.take(n), prefix) {
            rest
        } else {
            text.take(n) + rest
        }
    }
}

proof fn lemma_first_line(a: Seq<char>, b: Seq<char>)
    requires
        ends_line(a),
    ensures
        first_line(a + b) == first_line(a),
        0 < first_line(a) <= a.len(),
        a.skip(first_line(a)).len() > 0 ==> ends_line(a.skip(first_line(a))),
{
    let here = char_at(a, '\n');
    let there = char_at(a + b, '\n');
    lemma_first_in(here, 0, a.len() as int);
    lemma_first_in(there, 0, (a + b).len() as int);
    assert(here(a.len() - 1));
    let p = find_char(a, '\n').unwrap();
    assert(here(p));
    assert(there(p));
    let q = find_char(a + b, '\n').unwrap();
    assert(there(q));
    if q < p {
        assert(here(q));
    }
}

proof fn lemma_lines_apart(a: Seq<char>, b: Seq<char>, prefix: Seq<char>)
    requires
        a.len() > 0 ==> ends_line(a),
    ensures
        without_lines(a + b, prefix) == without_lines(a, prefix) + without_lines(b, prefix),
    decreases a.len(),
{
    if a.len() == 0 {
        assert(a + b =~= b);
        assert(a + without_lines(b, prefix) =~= without_lines(b, prefix));
    } else {
        lemma_first_line(a, b);
        let n = first_line(a);
        let rest = a.skip(n);
        assert((a + b).skip(n) =~= rest + b);
        assert((a + b).take(n) =~= a.take(n));
        lemma_lines_apart(rest, b, prefix);
        let x = without_lines(rest, prefix);
        let y = without_lines(b, prefix);
        assert(a.take(n) + (x + y) =~= (a.take(n) + x) + y);
    }
}

/// A line that starts with the prefix leaves nothing.
proof fn lemma_line_gone(prefix: Seq<char>, more: Seq<char>)
    requires
        lacks(prefix, '\n'),
        lacks(more, '\n'),
    ensures
        without_lines(prefix + more + seq!['\n'], prefix) == Seq::<char>::empty(),
{
    let body = prefix + more;
    let line = body + seq!['\n'];
    let none = Seq::<char>::empty();
    assert forall|i: int| 0 <= i < body.len() implies #[trigger] body[i] != '\n' by {
        if i < prefix.len() {
            assert(body[i] == prefix[i]);
        } else {
            assert(body[i] == more[i - prefix.len()]);
        }
    }
    law_find_char(body, '\n', none);
    assert(body + seq!['\n'] + none =~= line);
    assert(line.take(line.len() as int) =~= line);
    assert(line.skip(line.len() as int) =~= none);
    assert(line.subrange(0, prefix.len() as int) =~= prefix);
    assert(has_prefix(line, prefix));
    assert(without_lines(none, prefix) == none);
}

proof fn lemma_decimal_line(n: nat)
    ensures
        lacks(decimal(n), '\n'),
{
    lemma_decimal_digits(n);
    assert forall|i: int| 0 <= i < decimal(n).len() implies #[trigger] decimal(n)[i] != '\n' by {
        assert('0' <= decimal(n)[i]);
    }
}

proof fn lemma_padded_line(n: nat, width: nat)
    ensures
        lacks(padded(n, width), '\n'),
{
    lemma_padded_digits(n, width);
    let s = padded(n, width);
    assert forall|i: int| 0 <= i < s.len() implies #[trigger] s[i] != '\n' by {
        assert('0' <= s[i]);
    }
}

proof fn lemma_lacks_joined(a: Seq<char>, b: Seq<char>, c: char)
    requires
        lacks(a, c),
        lacks(b, c),
    ensures
        lacks(a + b, c),
{
    assert forall|i: int| 0 <= i < (a + b).len() implies #[trigger] (a + b)[i] != c by {
        if i < a.len() {
            assert((a + b)[i] == a[i]);
        } else {
            assert((a + b)[i] == b[i - a.len()]);
        }
    }
}

proof fn lemma_millis_line(us: nat)
    ensures
        lacks(millis_text(us), '\n'),
{
    reveal_strlit(".");
    lemma_decimal_line(us / 1000);
    lemma_padded_line(us % 1000 / 100, 1);
    lemma_padded_line(us % 1000 / 10, 2);
    lemma_padded_line(us % 1000, 3);
    let whole = decimal(us / 1000);
    lemma_lacks_joined(whole, "."@, '\n');
    lemma_lacks_joined(whole + "."@, padded(us % 1000 / 100, 1), '\n');
    lemma_lacks_joined(whole + "."@, padded(us % 1000 / 10, 2), '\n');
    lemma_lacks_joined(whole + "."@, padded(us % 1000, 3), '\n');
}

proof fn lemma_label_line(i: int)
    ensures
        lacks(label_of(i), '\n'),
{
    reveal_strlit("0.1");
    reveal_strlit("0.25");
    reveal_strlit("0.5");
    reveal_strlit("1");
    reveal_strlit("2.5");
    reveal_strlit("5");
    reveal_strlit("10");
    reveal_strlit("25");
    reveal_strlit("50");
    reveal_strlit("100");
    reveal_strlit("250");
    reveal_strlit("500");
    reveal_strlit("1000");
}

proof fn lemma_bucket_line_gone(
    h: HistogramModel,
    prefix: Seq<char>,
    more: Seq<char>,
    label: Seq<char>,
    i: int,
)
    requires
        lacks(prefix, '\n'),
        lacks(more, '\n'),
        lacks(label, '\n'),
    ensures
        without_lines(bucket_line(h, prefix + more, label, i), prefix) == Seq::<char>::empty(),
        ends_line(bucket_line(h, prefix + more, label, i)),
{
    lemma_newline();
    reveal_strlit("_bucket{le=\"");
    reveal_strlit("\"} ");
    let a = "_bucket{le=\""@;
    let b = "\"} "@;
    let n = decimal(cumulative(h, i + 1) as nat);
    lemma_decimal_line(cumulative(h, i + 1) as nat);
    lemma_lacks_joined(more, a, '\n');
    lemma_lacks_joined(more + a, label, '\n');
    lemma_lacks_joined(more + a + label, b, '\n');
    lemma_lacks_joined(more + a + label + b, n, '\n');
    let rest = more + a + label + b + n;
    lemma_line_gone(prefix, rest);
    assert(bucket_line(h, prefix + more, label, i) =~= prefix + rest + seq!['\n']);
}

proof fn lemma_bucket_lines_gone(h: HistogramModel, prefix: Seq<char>, more: Seq<char>, n: int)
    requires
        lacks(prefix, '\n'),
        lacks(more, '\n'),
    ensures
        without_lines(bucket_lines(h, prefix + more, n), prefix) == Seq::<char>::empty(),
        bucket_lines(h, prefix + more, n).len() > 0 ==> ends_line(
            bucket_lines(h, prefix + more, n),
        ),
    decreases n,
{
    if n > 0 {
        lemma_bucket_lines_gone(h, prefix, more, n - 1);
        lemma_label_line(n - 1);
        lemma_bucket_line_gone(h, prefix, more, label_of(n - 1), n - 1);
        let a = bucket_lines(h, prefix + more, n - 1);
        let b = bucket_line(h, prefix + more, label_of(n - 1), n - 1);
        lemma_lines_apart(a, b, prefix);
    }
}

/// Without the lines under its own name, the text of a histogram does not depend on
/// the times in it.
proof fn lemma_histogram_lines_gone(
    h: HistogramModel,
    k: HistogramModel,
    prefix: Seq<char>,
    more: Seq<char>,
    help: Seq<char>,
)
    requires
        lacks(prefix, '\n'),
        lacks(more, '\n'),
    ensures
        without_lines(histogram_text(h, prefix + more, help), prefix) == without_lines(
            histogram_text(k, prefix + more, help),
            prefix,
        ),
        ends_line(histogram_text(h, prefix + more, help)),
{
    lemma_histogram_rest(h, prefix, more, help);
    lemma_histogram_rest(k, prefix, more, help);
}

proof fn lemma_histogram_rest(
    h: HistogramModel,
    prefix: Seq<char>,
    more: Seq<char>,
    help: Seq<char>,
)
    requires
        lacks(prefix, '\n'),
        lacks(more, '\n'),
    ensures
        without_lines(histogram_text(h, prefix + more, help), prefix) == without_lines(
            "# HELP "@ + (prefix + more) + " "@ + help + "\n# TYPE "@ + (prefix + more)
                + " histogram\n"@,
            prefix,
        ),
        ends_line(histogram_text(h, prefix + more, help)),
{
    let name = prefix + more;
    let head = "# HELP "@ + name + " "@ + help + "\n# TYPE "@ + name + " histogram\n"@;
    let lines = bucket_lines(h, name, 13);
    let all = bucket_line(h, name, "+Inf"@, 13);
    let sum = name + "_sum "@ + millis_text(h.sum_us as nat) + "\n"@;
    let count = name + "_count "@ + decimal(h.count as nat) + "\n"@;
    assert(ends_line(head)) by {
        reveal_strlit(" histogram\n");
    }
    assert(lacks("+Inf"@, '\n')) by {
        reveal_strlit("+Inf");
    }
    lemma_bucket_lines_gone(h, prefix, more, 13);
    lemma_bucket_line_gone(h, prefix, more, "+Inf"@, 13);
    lemma_sum_gone(h, prefix, more);
    lemma_count_gone(h, prefix, more);
    lemma_only_head(head, lines, all, sum, count, prefix);
    lemma_histogram_shape(h, name, help);
}

proof fn lemma_assoc_four(
    head: Seq<char>,
    lines: Seq<char>,
    all: Seq<char>,
    s1: Seq<char>,
    s2: Seq<char>,
    s3: Seq<char>,
    s4: Seq<char>,
    c1: Seq<char>,
    c2: Seq<char>,
    c3: Seq<char>,
    c4: Seq<char>,
)
    ensures
        head + lines + all + s1 + s2 + s3 + s4 + c1 + c2 + c3 + c4 == head + (lines + (all + ((s1
            + s2 + s3 + s4) + (c1 + c2 + c3 + c4)))),
{
    let sum = s1 + s2 + s3 + s4;
    let count = c1 + c2 + c3 + c4;
    let front = head + lines + all;
    assert(front + s1 + s2 + s3 + s4 =~= front + sum);
    assert(front + sum + c1 + c2 + c3 + c4 =~= front + sum + count);
    assert(front + sum + count =~= head + (lines + (all + (sum + count))));
}

proof fn lemma_histogram_shape(h: HistogramModel, name: Seq<char>, help: Seq<char>)
    ensures
        ({
            let head = "# HELP "@ + name + " "@ + help + "\n# TYPE "@ + name + " histogram\n"@;
            let sum = name + "_sum "@ + millis_text(h.sum_us as nat) + "\n"@;
            let count = name + "_count "@ + decimal(h.count as nat) + "\n"@;
            histogram_text(h, name, help) == head + (bucket_lines(h, name, 13) + (bucket_line(
                h,
                name,
                "+Inf"@,
                13,
            ) + (sum + count)))
        }),
{
    lemma_assoc_four(
        "# HELP "@ + name + " "@ + help + "\n# TYPE "@ + name + " histogram\n"@,
        bucket_lines(h, name, 13),
        bucket_line(h, name, "+Inf"@, 13),
        name,
        "_sum "@,
        millis_text(h.sum_us as nat),
        "\n"@,
        name,
        "_count "@,
        decimal(h.count as nat),
        "\n"@,
    );
}

proof fn lemma_sum_gone(h: HistogramModel, prefix: Seq<char>, more: Seq<char>)
    requires
        lacks(prefix, '\n'),
        lacks(more, '\n'),
    ensures
        ({
            let line = prefix + more + "_sum "@ + millis_text(h.sum_us as nat) + "\n"@;
            &&& without_lines(line, prefix) == Seq::<char>::empty()
            &&& ends_line(line)
        }),
{
    lemma_newline();
    reveal_strlit("_sum ");
    lemma_millis_line(h.sum_us as nat);
    lemma_lacks_joined(more, "_sum "@, '\n');
    lemma_lacks_joined(more + "_sum "@, millis_text(h.sum_us as nat), '\n');
    let rest = more + "_sum "@ + millis_text(h.sum_us as nat);
    lemma_line_gone(prefix, rest);
    assert(prefix + more + "_sum "@ + millis_text(h.sum_us as nat) + "\n"@ =~= prefix + rest
        + seq!['\n']);
}

proof fn lemma_count_gone(h: HistogramModel, prefix: Seq<char>, more: Seq<char>)
    requires
        lacks(prefix, '\n'),
        lacks(more, '\n'),
    ensures
        ({
            let line = prefix + more + "_count "@ + decimal(h.count as nat) + "\n"@;
            &&& without_lines(line, prefix) == Seq::<char>::empty()
            &&& ends_line(line)
        }),
{
    lemma_newline();
    reveal_strlit("_count ");
    lemma_decimal_line(h.count as nat);
    lemma_lacks_joined(more, "_count "@, '\n');
    lemma_lacks_joined(more + "_count "@, decimal(h.count as nat), '\n');
    let rest = more + "_count "@ + decimal(h.count as nat);
    lemma_line_gone(prefix, rest);
    assert(prefix + more + "_count "@ + decimal(h.count as nat) + "\n"@ =~= prefix + rest
        + seq!['\n']);
}

proof fn lemma_only_head(
    head: Seq<char>,
    lines: Seq<char>,
    all: Seq<char>,
    sum: Seq<char>,
    count: Seq<char>,
    prefix: Seq<char>,
)
    requires
        ends_line(head),
        lines.len() > 0 ==> ends_line(lines),
        ends_line(all),
        ends_line(sum),
        ends_line(count),
        without_lines(lines, prefix) == Seq::<char>::empty(),
        without_lines(all, prefix) == Seq::<char>::empty(),
        without_lines(sum, prefix) == Seq::<char>::empty(),
        without_lines(count, prefix) == Seq::<char>::empty(),
    ensures
        without_lines(head + (lines + (all + (sum + count))), prefix) == without_lines(
            head,
            prefix,
        ),
        ends_line(head + (lines + (all + (sum + count)))),
{
    let none = Seq::<char>::empty();
    let kept = without_lines(head, prefix);
    lemma_lines_apart(sum, count, prefix);
    lemma_lines_apart(all, sum + count, prefix);
    lemma_lines_apart(lines, all + (sum + count), prefix);
    lemma_lines_apart(head, lines + (all + (sum + count)), prefix);
    assert(none + none =~= none);
    assert(kept + none =~= kept);
}

/// Texts that differ in one place only in lines under a name do not differ without
/// those lines.
proof fn lemma_one_place(
    a: Seq<char>,
    x: Seq<char>,
    y: Seq<char>,
    b: Seq<char>,
    prefix: Seq<char>,
)
    requires
        ends_line(a),
        ends_line(x),
        ends_line(y),
        without_lines(x, prefix) == without_lines(y, prefix),
    ensures
        without_lines(a + x + b, prefix) == without_lines(a + y + b, prefix),
        ends_line(a + x),
        ends_line(a + y),
{
    lemma_lines_apart(a, x, prefix);
    lemma_lines_apart(a, y, prefix);
    lemma_lines_apart(a + x, b, prefix);
    lemma_lines_apart(a + y, b, prefix);
}

proof fn lemma_counter_gone(prefix: Seq<char>, more: Seq<char>, v: u64)
    requires
        lacks(prefix, '\n'),
        lacks(more, '\n'),
    ensures
        without_lines(counter_line(prefix + more, v), prefix) == Seq::<char>::empty(),
        ends_line(counter_line(prefix + more, v)),
{
    lemma_newline();
    lemma_decimal_line(v as nat);
    lemma_lacks_joined(more, decimal(v as nat), '\n');
    lemma_line_gone(prefix, more + decimal(v as nat));
    assert(counter_line(prefix + more, v) =~= prefix + (more + decimal(v as nat)) + seq!['\n']);
}

proof fn lemma_two_places(
    a: Seq<char>,
    x: Seq<char>,
    y: Seq<char>,
    b: Seq<char>,
    v: Seq<char>,
    w: Seq<char>,
    c: Seq<char>,
    prefix: Seq<char>,
)
    requires
        ends_line(a),
        ends_line(x),
        ends_line(y),
        ends_line(b),
        ends_line(v),
        ends_line(w),
        without_lines(x, prefix) == without_lines(y, prefix),
        without_lines(v, prefix) == without_lines(w, prefix),
    ensures
        without_lines(a + x + b + v + c, prefix) == without_lines(a + y + b + w + c, prefix),
{
    lemma_one_place(a, x, y, b, prefix);
    lemma_lines_apart(a + x + b, v, prefix);
    lemma_lines_apart(a + y + b, w, prefix);
    lemma_lines_apart(a + x + b + v, c, prefix);
    lemma_lines_apart(a + y + b + w, c, prefix);
}

/// The text of the counters up to the sum of fork times.
spec fn until_fork_sum(m: MetricsModel) -> Seq<char> {
    "# HELP zeroboot_total_executions Total number of executions\n# TYPE zeroboot_total_executions counter\n"@
        + counter_line("zeroboot_total_executions{status=\"success\"} "@, successes(m))
        + counter_line("zeroboot_total_executions{status=\"error\"} "@, m.total_errors)
        + counter_line("zeroboot_total_executions{status=\"timeout\"} "@, m.total_timeouts)
        + "# HELP zeroboot_concurrent_forks Current number of concurrent forks\n# TYPE zeroboot_concurrent_forks gauge\n"@
        + counter_line("zeroboot_concurrent_forks "@, m.concurrent_forks)
        + "# HELP zeroboot_fork_time_microseconds_total Sum of fork times\n# TYPE zeroboot_fork_time_microseconds_total counter\n"@
}

/// The head of the sum of execution times.
spec fn exec_sum_head() -> Seq<char> {
    "# HELP zeroboot_exec_time_microseconds_total Sum of exec times\n# TYPE zeroboot_exec_time_microseconds_total counter\n"@
}

/// The head of the memory in use.
spec fn memory_head() -> Seq<char> {
    "# HELP zeroboot_memory_usage_bytes RSS memory usage\n# TYPE zeroboot_memory_usage_bytes gauge\n"@
}

spec fn fork_text(h: HistogramModel) -> Seq<char> {
    histogram_text(
        h,
        "zeroboot_fork_time_milliseconds"@,
        "Histogram of VM fork times in milliseconds"@,
    )
}

spec fn exec_text(h: HistogramModel) -> Seq<char> {
    histogram_text(
        h,
        "zeroboot_exec_time_milliseconds"@,
        "Histogram of code execution times in milliseconds"@,
    )
}

spec fn total_text(h: HistogramModel) -> Seq<char> {
    histogram_text(
        h,
        "zeroboot_total_time_milliseconds"@,
        "Histogram of total request times in milliseconds"@,
    )
}

proof fn lemma_assoc(
    x: Seq<char>,
    a: Seq<char>,
    b: Seq<char>,
    c: Seq<char>,
    d: Seq<char>,
    e: Seq<char>,
    f: Seq<char>,
    g: Seq<char>,
)
    ensures
        x + a + b + c + d + e + f + g == x + (a + b + c + d) + e + (f + g),
{
    assert(x + a + b + c + d + e + f + g =~= x + (a + b + c + d) + e + (f + g));
}

proof fn lemma_prefix_ends(m: MetricsModel)
    ensures
        ends_line(until_fork_sum(m)),
        ends_line(exec_sum_head()),
        ends_line(memory_head()),
{
    lemma_heads();
    lemma_more(
        "# HELP zeroboot_total_executions Total number of executions\n# TYPE zeroboot_total_executions counter\n"@
            + counter_line("zeroboot_total_executions{status=\"success\"} "@, successes(m))
            + counter_line("zeroboot_total_executions{status=\"error\"} "@, m.total_errors)
            + counter_line("zeroboot_total_executions{status=\"timeout\"} "@, m.total_timeouts)
            + "# HELP zeroboot_concurrent_forks Current number of concurrent forks\n# TYPE zeroboot_concurrent_forks gauge\n"@
            + counter_line("zeroboot_concurrent_forks "@, m.concurrent_forks),
        "# HELP zeroboot_fork_time_microseconds_total Sum of fork times\n# TYPE zeroboot_fork_time_microseconds_total counter\n"@,
    );
}

proof fn lemma_counter_ends(label: Seq<char>, v: u64)
    ensures
        ends_line(counter_line(label, v)),
{
    lemma_newline();
}

proof fn lemma_parts(m: MetricsModel, rss_bytes: u64)
    ensures
        metrics_text(m, rss_bytes) == until_fork_sum(m) + counter_line(
            "zeroboot_fork_time_microseconds_total "@,
            m.fork_time_sum_us,
        ) + exec_sum_head() + counter_line(
            "zeroboot_exec_time_microseconds_total "@,
            m.exec_time_sum_us,
        ) + memory_head() + counter_line("zeroboot_memory_usage_bytes "@, rss_bytes) + fork_text(
            m.fork_time_hist,
        ) + exec_text(m.exec_time_hist) + total_text(m.total_time_hist),
{
}

/// When fork times are recorded, no line of the metrics changes but those whose names
/// start with `zeroboot_fork_time_`.
#[verifier::rlimit(30)]
pub proof fn law_only_fork_lines_change(
    m: MetricsModel,
    sum_us: u64,
    h: HistogramModel,
    rss_bytes: u64,
)
    ensures
        without_lines(
            metrics_text(
                (MetricsModel { fork_time_sum_us: sum_us, fork_time_hist: h, ..m }),
                rss_bytes,
            ),
            "zeroboot_fork_time_"@,
        ) == without_lines(metrics_text(m, rss_bytes), "zeroboot_fork_time_"@),
{
    let p = "zeroboot_fork_time_"@;
    let k = MetricsModel { fork_time_sum_us: sum_us, fork_time_hist: h, ..m };
    lemma_fork_names();
    let label = "zeroboot_fork_time_microseconds_total "@;
    let x = counter_line(label, m.fork_time_sum_us);
    let y = counter_line(label, sum_us);
    lemma_counter_gone(p, "microseconds_total "@, m.fork_time_sum_us);
    lemma_counter_gone(p, "microseconds_total "@, sum_us);
    lemma_histogram_lines_gone(
        m.fork_time_hist,
        h,
        p,
        "milliseconds"@,
        "Histogram of VM fork times in milliseconds"@,
    );
    lemma_histogram_lines_gone(
        h,
        h,
        p,
        "milliseconds"@,
        "Histogram of VM fork times in milliseconds"@,
    );
    lemma_prefix_ends(m);
    let a = until_fork_sum(m);
    assert(until_fork_sum(k) == a);
    let e6 = counter_line("zeroboot_exec_time_microseconds_total "@, m.exec_time_sum_us);
    let e7 = counter_line("zeroboot_memory_usage_bytes "@, rss_bytes);
    lemma_counter_ends("zeroboot_memory_usage_bytes "@, rss_bytes);
    let b = exec_sum_head() + e6 + memory_head() + e7;
    assert(ends_line(b));
    let c = exec_text(m.exec_time_hist) + total_text(m.total_time_hist);
    lemma_parts(m, rss_bytes);
    lemma_parts(k, rss_bytes);
    lemma_assoc(
        a + x,
        exec_sum_head(),
        e6,
        memory_head(),
        e7,
        fork_text(m.fork_time_hist),
        exec_text(m.exec_time_hist),
        total_text(m.total_time_hist),
    );
    lemma_assoc(
        a + y,
        exec_sum_head(),
        e6,
        memory_head(),
        e7,
        fork_text(h),
        exec_text(m.exec_time_hist),
        total_text(m.total_time_hist),
    );
    lemma_two_places(a, x, y, b, fork_text(m.fork_time_hist), fork_text(h), c, p);
}

proof fn lemma_fork_names()
    ensures
        "zeroboot_fork_time_"@ + "milliseconds"@ == "zeroboot_fork_time_milliseconds"@,
        "zeroboot_fork_time_"@ + "microseconds_total "@
            == "zeroboot_fork_time_microseconds_total "@,
        lacks("zeroboot_fork_time_"@, '\n'),
        lacks("milliseconds"@, '\n'),
        lacks("microseconds_total "@, '\n'),
{
    reveal_strlit("zeroboot_fork_time_");
    reveal_strlit("milliseconds");
    reveal_strlit("microseconds_total ");
    reveal_strlit("zeroboot_fork_time_milliseconds");
    reveal_strlit("zeroboot_fork_time_microseconds_total ");
    assert("zeroboot_fork_time_"@ + "milliseconds"@ =~= "zeroboot_fork_time_milliseconds"@);
    assert("zeroboot_fork_time_"@ + "microseconds_total "@
        =~= "zeroboot_fork_time_microseconds_total "@);
}

/// When execution times are recorded, no line of the metrics changes but those whose
/// names start with `zeroboot_exec_time_`.
#[verifier::rlimit(30)]
pub proof fn law_only_exec_lines_change(
    m: MetricsModel,
    sum_us: u64,
    h: HistogramModel,
    rss_bytes: u64,
)
    ensures
        without_lines(
            metrics_text(
                (MetricsModel { exec_time_sum_us: sum_us, exec_time_hist: h, ..m }),
                rss_bytes,
            ),
            "zeroboot_exec_time_"@,
        ) == without_lines(metrics_text(m, rss_bytes), "zeroboot_exec_time_"@),
{
    let p = "zeroboot_exec_time_"@;
    let k = MetricsModel { exec_time_sum_us: sum_us, exec_time_hist: h, ..m };
    lemma_exec_names();
    let label = "zeroboot_exec_time_microseconds_total "@;
    let x = counter_line(label, m.exec_time_sum_us);
    let y = counter_line(label, sum_us);
    lemma_counter_gone(p, "microseconds_total "@, m.exec_time_sum_us);
    lemma_counter_gone(p, "microseconds_total "@, sum_us);
    let help = "Histogram of code execution times in milliseconds"@;
    lemma_histogram_lines_gone(m.exec_time_hist, h, p, "milliseconds"@, help);
    lemma_histogram_lines_gone(h, h, p, "milliseconds"@, help);
    lemma_prefix_ends(m);
    let a = until_fork_sum(m) + counter_line(
        "zeroboot_fork_time_microseconds_total "@,
        m.fork_time_sum_us,
    ) + exec_sum_head();
    assert(until_fork_sum(k) == until_fork_sum(m));
    assert(ends_line(a));
    let e7 = counter_line("zeroboot_memory_usage_bytes "@, rss_bytes);
    let f = fork_text(m.fork_time_hist);
    lemma_fork_names();
    lemma_histogram_lines_gone(
        m.fork_time_hist,
        m.fork_time_hist,
        "zeroboot_fork_time_"@,
        "milliseconds"@,
        "Histogram of VM fork times in milliseconds"@,
    );
    let b = memory_head() + e7 + f;
    assert(ends_line(b));
    lemma_parts(m, rss_bytes);
    lemma_parts(k, rss_bytes);
    let t = total_text(m.total_time_hist);
    lemma_assoc_three(a + x, memory_head(), e7, f, exec_text(m.exec_time_hist), t);
    lemma_assoc_three(a + y, memory_head(), e7, f, exec_text(h), t);
    lemma_two_places(a, x, y, b, exec_text(m.exec_time_hist), exec_text(h), t, p);
}

proof fn lemma_assoc_three(
    x: Seq<char>,
    a: Seq<char>,
    b: Seq<char>,
    c: Seq<char>,
    d: Seq<char>,
    e: Seq<char>,
)
    ensures
        x + a + b + c + d + e == x + (a + b + c) + d + e,
{
    assert(x + a + b + c =~= x + (a + b + c));
}

proof fn lemma_exec_names()
    ensures
        "zeroboot_exec_time_"@ + "milliseconds"@ == "zeroboot_exec_time_milliseconds"@,
        "zeroboot_exec_time_"@ + "microseconds_total "@
            == "zeroboot_exec_time_microseconds_total "@,
        lacks("zeroboot_exec_time_"@, '\n'),
        lacks("milliseconds"@, '\n'),
        lacks("microseconds_total "@, '\n'),
{
    reveal_strlit("zeroboot_exec_time_");
    reveal_strlit("milliseconds");
    reveal_strlit("microseconds_total ");
    reveal_strlit("zeroboot_exec_time_milliseconds");
    reveal_strlit("zeroboot_exec_time_microseconds_total ");
    assert("zeroboot_exec_time_"@ + "milliseconds"@ =~= "zeroboot_exec_time_milliseconds"@);
    assert("zeroboot_exec_time_"@ + "microseconds_total "@
        =~= "zeroboot_exec_time_microseconds_total "@);
}

/// When total times are recorded, no line of the metrics changes but those whose names
/// start with `zeroboot_total_time_`.
#[verifier::rlimit(30)]
pub proof fn law_only_total_lines_change(m: MetricsModel, h: HistogramModel, rss_bytes: u64)
    ensures
        without_lines(
            metrics_text((MetricsModel { total_time_hist: h, ..m }), rss_bytes),
            "zeroboot_total_time_"@,
        ) == without_lines(metrics_text(m, rss_bytes), "zeroboot_total_time_"@),
{
    let p = "zeroboot_total_time_"@;
    let k = MetricsModel { total_time_hist: h, ..m };
    reveal_strlit("zeroboot_total_time_");
    reveal_strlit("milliseconds");
    reveal_strlit("zeroboot_total_time_milliseconds");
    assert(p + "milliseconds"@ =~= "zeroboot_total_time_milliseconds"@);
    let help = "Histogram of total request times in milliseconds"@;
    lemma_histogram_lines_gone(m.total_time_hist, h, p, "milliseconds"@, help);
    lemma_exec_names();
    lemma_histogram_lines_gone(
        m.exec_time_hist,
        m.exec_time_hist,
        "zeroboot_exec_time_"@,
        "milliseconds"@,
        "Histogram of code execution times in milliseconds"@,
    );
    let a = counters_text(m, rss_bytes) + fork_text(m.fork_time_hist) + exec_text(
        m.exec_time_hist,
    );
    assert(counters_text(k, rss_bytes) == counters_text(m, rss_bytes));
    assert(ends_line(a));
    lemma_lines_apart(a, total_text(m.total_time_hist), p);
    lemma_lines_apart(a, total_text(h), p);
}

/// The bounds of the buckets are a tenth, a quarter and a half of a millisecond, and
/// every three of them ten times the three before, up to a second.
pub proof fn law_bounds(i: int)
    requires
        0 <= i < 10,
    ensures
        bound_of(0) == 100_000,
        bound_of(1) == 250_000,
        bound_of(2) == 500_000,
        bound_of(i + 3) == 10 * bound_of(i),
{
}

/// The label of a bucket is its bound in milliseconds.
pub proof fn law_labels(i: int)
    requires
        0 <= i < 13,
    ensures
        label_of(i) == millis_text(bound_of(i) as nat / 1000),
{
    lemma_label_texts();
    lemma_label_digits();
    assert(padded(1, 1) == decimal(1));
    assert(padded(5, 1) == decimal(5));
    assert(padded(25, 2) == decimal(25));
    let us = bound_of(i) as nat / 1000;
    if i == 0 {
        assert(millis_text(us) =~= "0.1"@);
    } else if i == 1 {
        assert(millis_text(us) =~= "0.25"@);
    } else if i == 2 {
        assert(millis_text(us) =~= "0.5"@);
    } else if i == 4 {
        assert(millis_text(us) =~= "2.5"@);
    }
}

proof fn lemma_label_digits()
    ensures
        decimal(0) == seq!['0'],
        decimal(1) == seq!['1'],
        decimal(2) == seq!['2'],
        decimal(5) == seq!['5'],
        decimal(10) == seq!['1', '0'],
        decimal(25) == seq!['2', '5'],
        decimal(50) == seq!['5', '0'],
        decimal(100) == seq!['1', '0', '0'],
        decimal(250) == seq!['2', '5', '0'],
        decimal(500) == seq!['5', '0', '0'],
        decimal(1000) == seq!['1', '0', '0', '0'],
{
    assert(decimal(0) =~= seq!['0']);
    assert(decimal(1) =~= seq!['1']);
    assert(decimal(2) =~= seq!['2']);
    assert(decimal(5) =~= seq!['5']);
    assert(decimal(10) =~= seq!['1', '0']);
    assert(decimal(25) =~= seq!['2', '5']);
    assert(decimal(50) =~= seq!['5', '0']);
    assert(decimal(100) =~= seq!['1', '0', '0']);
    assert(decimal(250) =~= seq!['2', '5', '0']);
    assert(decimal(500) =~= seq!['5', '0', '0']);
    assert(decimal(1000) =~= seq!['1', '0', '0', '0']);
}

proof fn lemma_label_texts()
    ensures
        "."@ == seq!['.'],
        "0.1"@ == seq!['0', '.', '1'],
        "0.25"@ == seq!['0', '.', '2', '5'],
        "0.5"@ == seq!['0', '.', '5'],
        "1"@ == seq!['1'],
        "2.5"@ == seq!['2', '.', '5'],
        "5"@ == seq!['5'],
        "10"@ == seq!['1', '0'],
        "25"@ == seq!['2', '5'],
        "50"@ == seq!['5', '0'],
        "100"@ == seq!['1', '0', '0'],
        "250"@ == seq!['2', '5', '0'],
        "500"@ == seq!['5', '0', '0'],
        "1000"@ == seq!['1', '0', '0', '0'],
{
    reveal_strlit(".");
    reveal_strlit("0.1");
    reveal_strlit("0.25");
    reveal_strlit("0.5");
    reveal_strlit("1");
    reveal_strlit("2.5");
    reveal_strlit("5");
    reveal_strlit("10");
    reveal_strlit("25");
    reveal_strlit("50");
    reveal_strlit("100");
    reveal_strlit("250");
    reveal_strlit("500");
    reveal_strlit("1000");
}

/// The number of thousandths that a text of up to three decimals stands for.
pub open spec fn thousandths(text: Seq<char>) -> Option<nat> {
    match find_char(text, '.') {
        None => match digits_value(text) {
            Some(whole) => Some(1000 * whole),
            None => None,
        },
        Some(p) => {
            let decimals = text.skip(p + 1);
            match (digits_value(text.take(p)), digits_value(decimals)) {
                (Some(whole), Some(part)) => if decimals.len() == 1 {
                    Some(1000 * whole + 100 * part)
                } else if decimals.len() == 2 {
                    Some(1000 * whole + 10 * part)
                } else if decimals.len() == 3 {
                    Some(1000 * whole + part)
                } else {
                    None
                },
                _ => None,
            }
        },
    }
}

proof fn lemma_zeros_value(k: int, s: Seq<char>)
    requires
        k >= 0,
    ensures
        digits_value(zeros(k) + s) == digits_value(s),
    decreases k + s.len(),
{
    let all = zeros(k) + s;
    if s.len() > 0 {
        assert(all.drop_last() =~= zeros(k) + s.drop_last());
        assert(all.last() == s.last());
        lemma_zeros_value(k, s.drop_last());
    } else if k > 0 {
        assert(all.drop_last() =~= zeros(k - 1) + s);
        lemma_zeros_value(k - 1, s);
        assert(all.last() == '0');
    } else {
        assert(all =~= s);
    }
}

proof fn lemma_padded_value(n: nat, width: nat)
    ensures
        digits_value(padded(n, width)) == Some(n),
{
    lemma_decimal_value(n);
    if decimal(n).len() < width {
        lemma_zeros_value(width - decimal(n).len(), decimal(n));
    }
}

proof fn lemma_point(whole: nat, part: nat, width: nat)
    requires
        1 <= width <= 3,
        part < pow10(width),
    ensures
        ({
            let text = decimal(whole) + "."@ + padded(part, width);
            &&& find_char(text, '.') == Some(decimal(whole).len() as int)
            &&& text.take(decimal(whole).len() as int) == decimal(whole)
            &&& text.skip((decimal(whole).len() + 1) as int) == padded(part, width)
            &&& padded(part, width).len() == width
        }),
{
    reveal_strlit(".");
    lemma_padded_len(part, width);
    lemma_decimal_digits(whole);
    let a = decimal(whole);
    let b = padded(part, width);
    assert forall|i: int| 0 <= i < a.len() implies #[trigger] a[i] != '.' by {
        assert('0' <= a[i]);
    }
    assert(a + "."@ + b =~= a + seq!['.'] + b);
    law_find_char(a, '.', b);
    assert((a + "."@ + b).take(a.len() as int) =~= a);
    assert((a + "."@ + b).skip((a.len() + 1) as int) =~= b);
}

/// A time in milliseconds, as text, stands for its microseconds.
pub proof fn law_millis_value(us: nat)
    ensures
        thousandths(millis_text(us)) == Some(us),
{
    reveal_with_fuel(pow10, 4);
    let whole = us / 1000;
    lemma_decimal_value(whole);
    if us % 1000 == 0 {
        lemma_decimal_digits(whole);
        let a = decimal(whole);
        assert forall|i: int| 0 <= i < a.len() implies #[trigger] a[i] != '.' by {
            assert('0' <= a[i]);
        }
        law_find_no_char(a, '.');
    } else if us % 100 == 0 {
        lemma_point(whole, us % 1000 / 100, 1);
        lemma_padded_value(us % 1000 / 100, 1);
    } else if us % 10 == 0 {
        lemma_point(whole, us % 1000 / 10, 2);
        lemma_padded_value(us % 1000 / 10, 2);
    } else {
        lemma_point(whole, us % 1000, 3);
        lemma_padded_value(us % 1000, 3);
    }
}

/// The histogram of some times, recorded one after the other.
pub open spec fn recorded(times: Seq<u64>) -> HistogramModel
    decreases times.len(),
{
    if times.len() == 0 {
        empty_histogram()
    } else {
        observed(recorded(times.drop_last()), times.last())
    }
}

/// The sum of times in whole microseconds.
pub open spec fn micros_sum(times: Seq<u64>) -> int
    decreases times.len(),
{
    if times.len() == 0 {
        0
    } else {
        micros_sum(times.drop_last()) + times.last() as int / 1000
    }
}

/// A histogram counts, for each bound, the times that do not exceed it, and has their
/// number and the sum of their whole microseconds.
pub proof fn law_histogram_counts(times: Seq<u64>, i: int)
    requires
        times.len() <= u64::MAX,
        micros_sum(times) <= u64::MAX,
        0 <= i < 13,
    ensures
        ({
            let h = recorded(times);
            &&& h.buckets.len() == 14
            &&& cumulative(h, i + 1) == times.filter(|t: u64| t <= bound_of(i)).len()
            &&& cumulative(h, 14) == times.len()
            &&& h.count == times.len()
            &&& h.sum_us == micros_sum(times)
        }),
    decreases times.len(),
{
    reveal(Seq::filter);
    let p = |t: u64| t <= bound_of(i);
    if times.len() == 0 {
        reveal_with_fuel(counter_sum, 15);
        law_counts_agree(empty_histogram(), 0);
        lemma_no_counts(i + 1);
    } else {
        let front = times.drop_last();
        law_histogram_counts(front, i);
        law_observed_in_bounds(recorded(front), times.last(), i);
        law_counts_agree(recorded(front), times.last());
        front.lemma_filter_len(p);
    }
}

proof fn lemma_no_counts(n: int)
    requires
        n <= 14,
    ensures
        counter_sum(empty_histogram().buckets, n) == 0,
    decreases n,
{
    if n > 0 {
        lemma_no_counts(n - 1);
    }
}

/// The text of a histogram starts with its help and its type.
pub proof fn law_histogram_head(h: HistogramModel, name: Seq<char>, help: Seq<char>)
    ensures
        has_prefix(
            histogram_text(h, name, help),
            "# HELP "@ + name + " "@ + help + "\n# TYPE "@ + name + " histogram\n"@,
        ),
{
    lemma_histogram_shape(h, name, help);
    let head = "# HELP "@ + name + " "@ + help + "\n# TYPE "@ + name + " histogram\n"@;
    let sum = name + "_sum "@ + millis_text(h.sum_us as nat) + "\n"@;
    let count = name + "_count "@ + decimal(h.count as nat) + "\n"@;
    law_stripped(
        head,
        bucket_lines(h, name, 13) + (bucket_line(h, name, "+Inf"@, 13) + (sum + count)),
    );
}

/// Nothing is counted before the first request.
pub proof fn law_fresh_metrics()
    ensures
        ({
            let m = fresh_metrics();
            &&& m.total_executions == 0
            &&& m.total_errors == 0
            &&& m.early_errors == 0
            &&& m.total_timeouts == 0
            &&& m.concurrent_forks == 0
            &&& m.fork_time_sum_us == 0
            &&& m.exec_time_sum_us == 0
            &&& m.fork_time_hist == recorded(seq![])
            &&& m.exec_time_hist == recorded(seq![])
            &&& m.total_time_hist == recorded(seq![])
        }),
{
}

} // verus!
