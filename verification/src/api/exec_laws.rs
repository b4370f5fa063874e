//! What a request is answered, and what is recorded of it, however far it gets.

use vstd::prelude::*;

use crate::api::exec::{
    answered, begun, finished, first_step, fork_step, printed, send_step, template_for, time_limit,
    ExecRequestModel, Steps,
};
use crate::api::metrics::{bound_of, cumulative, law_observed_in_bounds, MetricsModel};
use crate::api::millis::{law_rounding_error, rounded, Millis};
use crate::api::output_laws::{
    law_all_reported, law_echo_removed, line_ends, terminal_output, terminal_text,
};
use crate::text::{before_char, decimal, has_prefix, occurs, trim};
use crate::text_laws::{lacks, law_occurs, law_stripped, tight};

verus! {

/// Whether a reported time, in hundredths of a millisecond, is the nearest to a time in
/// nanoseconds.
pub open spec fn nearest(t: Millis, nanos: u64) -> bool {
    -5_000 <= t.hundredths * 10_000 - nanos <= 5_000
}

/// A request without a template, or whose fork or command fails, is answered with the
/// reason, with nothing printed and with exit code -1.
pub proof fn law_early_end(m: MetricsModel, req: ExecRequestModel, id: Seq<char>, steps: Steps)
    ensures
        ({
            let r = answered(m, req, id, steps).1;
            &&& r.id == id
            &&& nearest(r.total_time_ms, steps.total_nanos)
            &&& !steps.has_template ==> {
                &&& r.stderr == "No template for language: "@ + req.language
                &&& r.stdout.len() == 0
                &&& r.exit_code == -1
                &&& r.fork_time_ms.hundredths == 0
                &&& r.exec_time_ms.hundredths == 0
            }
            &&& steps.has_template ==> (steps.fork matches Err(e) ==> {
                &&& r.stderr == "Fork failed: "@ + e
                &&& r.stdout.len() == 0
                &&& r.exit_code == -1
                &&& r.fork_time_ms.hundredths == 0
                &&& r.exec_time_ms.hundredths == 0
            })
            &&& steps.has_template ==> (steps.fork matches Ok(nanos) ==> (
            steps.send matches Err(e) ==> {
                &&& r.stderr == "Send failed: "@ + e
                &&& r.stdout.len() == 0
                &&& r.exit_code == -1
                &&& nearest(r.fork_time_ms, nanos)
                &&& r.exec_time_ms.hundredths == 0
            }))
        }),
{
    law_rounding_error(steps.total_nanos);
    if let Ok(nanos) = steps.fork {
        law_rounding_error(nanos);
    }
}

/// A run that fails because its time is up is answered with the seconds that it had.
pub proof fn law_timeout_answer(
    m: MetricsModel,
    req: ExecRequestModel,
    id: Seq<char>,
    steps: Steps,
    before: Seq<char>,
    after: Seq<char>,
)
    requires
        steps.has_template,
        steps.fork is Ok,
        steps.send is Ok,
        steps.run == Err::<Seq<char>, Seq<char>>(before + "timed out"@ + after),
    ensures
        ({
            let r = answered(m, req, id, steps).1;
            let secs = if req.timeout_seconds < 300 {
                req.timeout_seconds
            } else {
                300
            };
            &&& r.stderr == "Execution timed out after "@ + decimal(secs as nat) + "s"@
            &&& r.stdout.len() == 0
            &&& r.exit_code == -1
            &&& nearest(r.fork_time_ms, steps.fork->Ok_0)
            &&& nearest(r.exec_time_ms, steps.exec_nanos)
        }),
{
    law_occurs(before, "timed out"@, after);
    law_rounding_error(steps.fork->Ok_0);
    law_rounding_error(steps.exec_nanos);
}

/// Where a VM echoes the code on one line, prints a text and then the marker, the
/// request is answered with that text, whole, and with exit code 0.
pub proof fn law_output_answered(
    m: MetricsModel,
    req: ExecRequestModel,
    id: Seq<char>,
    steps: Steps,
    echo: Seq<char>,
    t: Seq<char>,
    tail: Seq<char>,
)
    requires
        steps.has_template,
        steps.fork is Ok,
        steps.send is Ok,
        lacks(echo, '\n'),
        lacks(echo, '\r'),
        !occurs(echo, "ZEROBOOT_DONE"@),
        trim(echo) == trim(req.code),
        lacks(t, '\r'),
        !occurs(t, "ZEROBOOT_DONE"@),
        tight(t),
        line_ends(tail),
        steps.run == Ok::<Seq<char>, Seq<char>>(terminal_output(echo, t, tail)),
    ensures
        ({
            let r = answered(m, req, id, steps).1;
            &&& r.stdout == t
            &&& r.stderr.len() == 0
            &&& r.exit_code == 0
            &&& nearest(r.fork_time_ms, steps.fork->Ok_0)
            &&& nearest(r.exec_time_ms, steps.exec_nanos)
            &&& nearest(r.total_time_ms, steps.total_nanos)
        }),
{
    law_echo_removed(echo, t, tail, req.code);
    law_occurs(echo + seq!['\r', '\n'] + terminal_text(t), "ZEROBOOT_DONE"@, tail);
    law_rounding_error(steps.fork->Ok_0);
    law_rounding_error(steps.exec_nanos);
    law_rounding_error(steps.total_nanos);
}

/// Where a VM prints a text that does not start with an echo of the code, and then the
/// marker, the request is answered with all of it.
pub proof fn law_plain_output_answered(
    m: MetricsModel,
    req: ExecRequestModel,
    id: Seq<char>,
    steps: Steps,
    t: Seq<char>,
    tail: Seq<char>,
)
    requires
        steps.has_template,
        steps.fork is Ok,
        steps.send is Ok,
        lacks(t, '\r'),
        !occurs(t, "ZEROBOOT_DONE"@),
        tight(t),
        line_ends(tail),
        trim(before_char(t, '\n')) != trim(req.code),
        steps.run == Ok::<Seq<char>, Seq<char>>(terminal_text(t) + "ZEROBOOT_DONE"@ + tail),
    ensures
        ({
            let r = answered(m, req, id, steps).1;
            r.stdout == t && r.stderr.len() == 0 && r.exit_code == 0
        }),
{
    law_all_reported(t, tail, req.code);
    law_occurs(terminal_text(t), "ZEROBOOT_DONE"@, tail);
}

/// A run that ends without the marker is answered with what there is of its output, and
/// with exit code -1.
pub proof fn law_unexpected_exit(
    m: MetricsModel,
    req: ExecRequestModel,
    id: Seq<char>,
    steps: Steps,
    output: Seq<char>,
)
    requires
        steps.has_template,
        steps.fork is Ok,
        steps.send is Ok,
        !occurs(output, "ZEROBOOT_DONE"@),
        steps.run == Ok::<Seq<char>, Seq<char>>(output) || steps.run == Err::<
            Seq<char>,
            Seq<char>,
        >(output) && !occurs(output, "timed out"@),
    ensures
        ({
            let r = answered(m, req, id, steps).1;
            &&& r.stdout == printed(output, req.code)
            &&& r.stderr == "Process exited unexpectedly"@
            &&& r.exit_code == -1
        }),
{
}

/// The time of a fork is recorded in whole microseconds where a VM was forked, and
/// only there.
pub proof fn law_fork_time_recorded(
    m: MetricsModel,
    req: ExecRequestModel,
    id: Seq<char>,
    steps: Steps,
)
    ensures
        ({
            let after = answered(m, req, id, steps).0;
            if steps.has_template && steps.fork is Ok {
                let us = steps.fork->Ok_0 / 1000;
                &&& after.fork_time_sum_us == m.fork_time_sum_us.wrapping_add(us)
                &&& after.fork_time_hist.sum_us == m.fork_time_hist.sum_us.wrapping_add(us)
                &&& after.fork_time_hist.count == m.fork_time_hist.count.wrapping_add(1)
            } else {
                &&& after.fork_time_sum_us == m.fork_time_sum_us
                &&& after.fork_time_hist == m.fork_time_hist
            }
        }),
{
}

/// The time of a run is recorded in microseconds where the code was run, and only there:
/// as it is reported in the sum, and as it is in the histogram.
pub proof fn law_exec_time_recorded(
    m: MetricsModel,
    req: ExecRequestModel,
    id: Seq<char>,
    steps: Steps,
)
    ensures
        ({
            let after = answered(m, req, id, steps).0;
            if steps.has_template && steps.fork is Ok && steps.send is Ok {
                let reported = rounded(steps.exec_nanos);
                let us = steps.exec_nanos / 1000;
                &&& nearest(reported, steps.exec_nanos)
                &&& after.exec_time_sum_us == m.exec_time_sum_us.wrapping_add(
                    (10 * reported.hundredths) as u64,
                )
                &&& after.exec_time_hist.sum_us == m.exec_time_hist.sum_us.wrapping_add(us)
                &&& after.exec_time_hist.count == m.exec_time_hist.count.wrapping_add(1)
            } else {
                &&& after.exec_time_sum_us == m.exec_time_sum_us
                &&& after.exec_time_hist == m.exec_time_hist
            }
        }),
{
    law_rounding_error(steps.exec_nanos);
}

/// Of the histograms of fork times and of execution times, a request adds to the counts
/// of exactly the buckets whose bound its own fork time and its own execution time do
/// not exceed.
pub proof fn law_times_in_buckets(
    m: MetricsModel,
    req: ExecRequestModel,
    id: Seq<char>,
    steps: Steps,
    i: int,
)
    requires
        steps.has_template,
        steps.fork is Ok,
        steps.send is Ok,
        0 <= i < 13,
        m.fork_time_hist.buckets.len() == 14,
        m.exec_time_hist.buckets.len() == 14,
    ensures
        ({
            let after = answered(m, req, id, steps).0;
            let bound = bound_of(i);
            &&& cumulative(after.fork_time_hist, i + 1) == if steps.fork->Ok_0 <= bound {
                cumulative(m.fork_time_hist, i + 1).wrapping_add(1)
            } else {
                cumulative(m.fork_time_hist, i + 1)
            }
            &&& cumulative(after.exec_time_hist, i + 1) == if steps.exec_nanos <= bound {
                cumulative(m.exec_time_hist, i + 1).wrapping_add(1)
            } else {
                cumulative(m.exec_time_hist, i + 1)
            }
        }),
{
    law_observed_in_bounds(m.fork_time_hist, steps.fork->Ok_0, i);
    law_observed_in_bounds(m.exec_time_hist, steps.exec_nanos, i);
}

/// The whole time of every request is recorded as it is reported, however the request
/// ends.
pub proof fn law_total_time_recorded(
    m: MetricsModel,
    req: ExecRequestModel,
    id: Seq<char>,
    steps: Steps,
    i: int,
)
    requires
        steps.total_nanos <= u64::MAX - 5_000,
        0 <= i < 13,
        m.total_time_hist.buckets.len() == 14,
    ensures
        ({
            let (after, r) = answered(m, req, id, steps);
            let t = r.total_time_ms;
            &&& nearest(t, steps.total_nanos)
            &&& after.total_time_hist.count == m.total_time_hist.count.wrapping_add(1)
            &&& after.total_time_hist.sum_us == m.total_time_hist.sum_us.wrapping_add(
                (10 * t.hundredths) as u64,
            )
            &&& cumulative(after.total_time_hist, i + 1) == if 10_000 * t.hundredths <= bound_of(
                i,
            ) {
                cumulative(m.total_time_hist, i + 1).wrapping_add(1)
            } else {
                cumulative(m.total_time_hist, i + 1)
            }
        }),
{
    law_rounding_error(steps.total_nanos);
    let t = rounded(steps.total_nanos);
    law_observed_in_bounds(m.total_time_hist, (10_000 * t.hundredths) as u64, i);
}

/// A request has the seconds that it asks for, up to 300.
pub proof fn law_time_granted(timeout_seconds: u64)
    ensures
        timeout_seconds <= 300 ==> time_limit(timeout_seconds) == timeout_seconds,
        timeout_seconds >= 300 ==> time_limit(timeout_seconds) == 300,
{
}

/// JavaScript runs under either of its names, and every other language is Python.
pub proof fn law_templates(language: Seq<char>)
    ensures
        template_for("node"@) == "node"@,
        template_for("javascript"@) == "node"@,
        language != "node"@ && language != "javascript"@ ==> template_for(language) == "python"@,
        first_step(true, language) is Ok,
        first_step(false, language) is Err,
{
}

/// What is sent to a VM is the code, whole, on a line that says so.
pub proof fn law_command(nanos: u64, code: Seq<char>)
    ensures
        fork_step(Ok(nanos), code) matches Ok((time, command)) && {
            &&& nearest(time, nanos)
            &&& command.len() == code.len() + 6
            &&& has_prefix(command, "CODE:"@)
            &&& command.subrange(5, 5int + code.len()) == code
            &&& command.last() == '\n'
        },
{
    law_rounding_error(nanos);
    reveal_strlit("CODE:");
    reveal_strlit("\n");
    let command = "CODE:"@ + code + "\n"@;
    law_stripped("CODE:"@, code + "\n"@);
    assert(command =~= "CODE:"@ + (code + "\n"@));
    assert(command.subrange(5, 5int + code.len()) =~= code);
}

/// A VM runs up to the marker that is looked for in its output, within the time that the
/// request has.
pub proof fn law_run_bounds(fork_time: Millis, timeout_seconds: u64)
    ensures
        send_step(Ok(()), fork_time, timeout_seconds) matches Ok((marker, secs)) && {
            &&& marker == "ZEROBOOT_DONE"@
            &&& secs == time_limit(timeout_seconds)
        },
{
}

/// A request counts as one concurrent fork from its beginning to its end.
pub proof fn law_concurrent_forks(m: MetricsModel, has_template: bool, total_nanos: u64)
    ensures
        begun(m, has_template).concurrent_forks == m.concurrent_forks.wrapping_add(1),
        finished(m, total_nanos).concurrent_forks == m.concurrent_forks.wrapping_sub(1),
{
}

/// An error is counted where a request ends early, and where a run that is not out of
/// time fails or ends without the marker; in no other case. It is an early one where the
/// code was not run.
pub proof fn law_errors_counted(
    m: MetricsModel,
    req: ExecRequestModel,
    id: Seq<char>,
    steps: Steps,
)
    ensures
        ({
            let after = answered(m, req, id, steps).0;
            let ran = steps.has_template && steps.fork is Ok && steps.send is Ok;
            let late = steps.run matches Err(e) && occurs(e, "timed out"@);
            let good = steps.run matches Ok(text) && occurs(text, "ZEROBOOT_DONE"@);
            &&& after.total_errors == if !ran || !late && !good {
                m.total_errors.wrapping_add(1)
            } else {
                m.total_errors
            }
            &&& after.early_errors == if !ran {
                m.early_errors.wrapping_add(1)
            } else {
                m.early_errors
            }
            &&& after.total_timeouts == if ran && late {
                m.total_timeouts.wrapping_add(1)
            } else {
                m.total_timeouts
            }
            &&& after.total_executions == if ran {
                m.total_executions.wrapping_add(1)
            } else {
                m.total_executions
            }
        }),
{
}

} // verus!
