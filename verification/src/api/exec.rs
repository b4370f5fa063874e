//! Running code in a sandbox: the decisions between its steps.
//!
//! A request is handled in steps that the caller performs: fork a VM from the
//! language's template, send it the code, run it until it prints a marker. The
//! functions here take the result of each step, count it, and say what the next
//! step is or how the request ends. Every request starts with `begin_execution` and
//! ends with `finish_execution`.

use vstd::prelude::*;

use crate::api::access::{is_listed, listed};
use crate::api::metrics::{
    accounted, counts_agree, fresh_metrics, law_counts_agree, observed, successes, Metrics,
    MetricsModel,
};
use crate::api::millis::{round2, rounded, Millis};
use crate::scan::lemma_first_in;
use crate::text::{
    char_at, contains, decimal, find_char, find_from, is_white, law_trimmed, occurs, push_decimal,
    replace, replace_all, stands_at, substring, to_chars, trim, trim_end, trim_range, trim_start,
    trim_text,
};

verus! {

/// A request to run code.
#[derive(Debug, PartialEq, Eq)]
pub struct ExecRequest {
    pub code: String,
    pub language: String,
    pub timeout_seconds: u64,
}

/// The language of a request that names none.
pub fn default_language() -> (r: String)
    ensures
        r@ == "python"@,
{
    "python".to_string()
}

/// The timeout of a request that names none, in seconds.
pub fn default_timeout() -> (r: u64)
    ensures
        r == 30,
{
    30
}

/// The answer to a request to run code.
#[derive(Debug, PartialEq, Eq)]
pub struct ExecResponse {
    pub id: String,
    pub stdout: String,
    pub stderr: String,
    pub exit_code: i32,
    pub fork_time_ms: Millis,
    pub exec_time_ms: Millis,
    pub total_time_ms: Millis,
}

/// What an `ExecResponse` holds.
#[verifier::ext_equal]
pub struct ResponseModel {
    pub id: Seq<char>,
    pub stdout: Seq<char>,
    pub stderr: Seq<char>,
    pub exit_code: int,
    pub fork_time_ms: Millis,
    pub exec_time_ms: Millis,
    pub total_time_ms: Millis,
}

impl View for ExecResponse {
    type V = ResponseModel;

    open spec fn view(&self) -> ResponseModel {
        ResponseModel {
            id: self.id@,
            stdout: self.stdout@,
            stderr: self.stderr@,
            exit_code: self.exit_code as int,
            fork_time_ms: self.fork_time_ms,
            exec_time_ms: self.exec_time_ms,
            total_time_ms: self.total_time_ms,
        }
    }
}

/// How a request ended, before its whole time is known.
#[derive(Debug, PartialEq, Eq)]
pub struct Outcome {
    pub stdout: String,
    pub stderr: String,
    pub exit_code: i32,
    pub fork_time_ms: Millis,
    pub exec_time_ms: Millis,
}

/// What an `Outcome` holds.
#[verifier::ext_equal]
pub struct OutcomeModel {
    pub stdout: Seq<char>,
    pub stderr: Seq<char>,
    pub exit_code: int,
    pub fork_time_ms: Millis,
    pub exec_time_ms: Millis,
}

impl View for Outcome {
    type V = OutcomeModel;

    open spec fn view(&self) -> OutcomeModel {
        OutcomeModel {
            stdout: self.stdout@,
            stderr: self.stderr@,
            exit_code: self.exit_code as int,
            fork_time_ms: self.fork_time_ms,
            exec_time_ms: self.exec_time_ms,
        }
    }
}

/// No time.
pub open spec fn no_time() -> Millis {
    Millis { hundredths: 0 }
}

/// A request that ended without output.
pub open spec fn failed(stderr: Seq<char>, fork_time: Millis, exec_time: Millis) -> OutcomeModel {
    OutcomeModel {
        stdout: seq![],
        stderr,
        exit_code: -1,
        fork_time_ms: fork_time,
        exec_time_ms: exec_time,
    }
}

fn fail(stderr: String, fork_time: Millis, exec_time: Millis) -> (r: Outcome)
    ensures
        r@ == failed(stderr@, fork_time, exec_time),
{
    Outcome {
        stdout: String::new(),
        stderr,
        exit_code: -1,
        fork_time_ms: fork_time,
        exec_time_ms: exec_time,
    }
}

/// The template that runs a language: node for both names of JavaScript, and python
/// for everything else.
pub open spec fn template_for(language: Seq<char>) -> Seq<char> {
    if language == "node"@ || language == "javascript"@ {
        "node"@
    } else {
        "python"@
    }
}

/// The name of the template that runs a language.
pub fn template_name(language: &String) -> (r: &'static str)
    ensures
        r@ == template_for(language@),
{
    if *language == "node".to_string() || *language == "javascript".to_string() {
        "node"
    } else {
        "python"
    }
}

/// The metrics with one more error.
pub open spec fn one_error(m: MetricsModel) -> MetricsModel {
    MetricsModel { total_errors: m.total_errors.wrapping_add(1), ..m }
}

/// The metrics with one more request that failed before its code was run.
pub open spec fn one_early_error(m: MetricsModel) -> MetricsModel {
    MetricsModel { early_errors: m.early_errors.wrapping_add(1), ..one_error(m) }
}

fn count_early_error(metrics: &mut Metrics)
    ensures
        final(metrics)@ == one_early_error(old(metrics)@),
{
    metrics.total_errors = metrics.total_errors.wrapping_add(1);
    metrics.early_errors = metrics.early_errors.wrapping_add(1);
}

/// The metrics once a request has begun.
pub open spec fn begun(m: MetricsModel, has_template: bool) -> MetricsModel {
    let started = MetricsModel { concurrent_forks: m.concurrent_forks.wrapping_add(1), ..m };
    if has_template {
        started
    } else {
        one_early_error(started)
    }
}

/// How a request begins: with the template to fork, or with its end.
pub open spec fn first_step(has_template: bool, language: Seq<char>) -> Result<
    Seq<char>,
    OutcomeModel,
> {
    if has_template {
        Ok(template_for(language))
    } else {
        Err(failed("No template for language: "@ + language, no_time(), no_time()))
    }
}

/// Begins a request. Returns the template to fork.
pub fn begin_execution(metrics: &mut Metrics, templates: &Vec<String>, req: &ExecRequest) -> (r:
    Result<&'static str, Outcome>)
    ensures
        ({
            let has_template = listed(templates@, template_for(req.language@));
            &&& final(metrics)@ == begun(old(metrics)@, has_template)
            &&& first_step(has_template, req.language@) == match r {
                Ok(name) => Ok::<Seq<char>, OutcomeModel>(name@),
                Err(o) => Err::<Seq<char>, OutcomeModel>(o@),
            }
        }),
{
    metrics.concurrent_forks = metrics.concurrent_forks.wrapping_add(1);
    let lang: &'static str = template_name(&req.language);
    if is_listed(templates, lang) {
        Ok(lang)
    } else {
        count_early_error(metrics);
        let text: String = "No template for language: ".to_string();
        Err(
            fail(
                text.concat(req.language.as_str()),
                Millis { hundredths: 0 },
                Millis { hundredths: 0 },
            ),
        )
    }
}

/// A step's result with its error as text.
pub open spec fn step_result<T>(r: Result<T, String>) -> Result<T, Seq<char>> {
    match r {
        Ok(v) => Ok(v),
        Err(e) => Err(e@),
    }
}

/// The metrics once the fork of a VM has ended, with its time in nanoseconds.
pub open spec fn fork_counted(m: MetricsModel, fork: Result<u64, Seq<char>>) -> MetricsModel {
    match fork {
        Ok(nanos) => MetricsModel {
            fork_time_sum_us: m.fork_time_sum_us.wrapping_add(nanos / 1000),
            fork_time_hist: observed(m.fork_time_hist, nanos),
            ..m
        },
        Err(_) => one_early_error(m),
    }
}

/// What follows the fork of a VM: the time that it took and the command to send, or
/// the end of the request.
pub open spec fn fork_step(fork: Result<u64, Seq<char>>, code: Seq<char>) -> Result<
    (Millis, Seq<char>),
    OutcomeModel,
> {
    match fork {
        Ok(nanos) => Ok((rounded(nanos), "CODE:"@ + code + "\n"@)),
        Err(e) => Err(failed("Fork failed: "@ + e, no_time(), no_time())),
    }
}

/// Takes the result of forking a VM: how long it took in nanoseconds, or why it
/// failed. Returns the time and the command to send to the VM.
pub fn fork_done(metrics: &mut Metrics, req: &ExecRequest, fork: Result<u64, String>) -> (r: Result<
    (Millis, String),
    Outcome,
>)
    ensures
        final(metrics)@ == fork_counted(old(metrics)@, step_result(fork)),
        fork_step(step_result(fork), req.code@) == match r {
            Ok((time, command)) => Ok::<(Millis, Seq<char>), OutcomeModel>((time, command@)),
            Err(o) => Err::<(Millis, Seq<char>), OutcomeModel>(o@),
        },
{
    match fork {
        Ok(nanos) => {
            metrics.fork_time_sum_us = metrics.fork_time_sum_us.wrapping_add(nanos / 1000);
            metrics.fork_time_hist.observe(nanos);
            let mut command: String = "CODE:".to_string();
            command.append(req.code.as_str());
            command.append("\n");
            Ok((round2(nanos), command))
        },
        Err(e) => {
            count_early_error(metrics);
            let text: String = "Fork failed: ".to_string();
            Err(
                fail(
                    text.concat(e.as_str()),
                    Millis { hundredths: 0 },
                    Millis { hundredths: 0 },
                ),
            )
        },
    }
}

/// How many seconds a request may run: what it asks for, but no more than 300.
pub open spec fn time_limit(timeout_seconds: u64) -> u64 {
    if timeout_seconds < 300 {
        timeout_seconds
    } else {
        300
    }
}

fn clamp_timeout(timeout_seconds: u64) -> (r: u64)
    ensures
        r == time_limit(timeout_seconds),
{
    if timeout_seconds < 300 {
        timeout_seconds
    } else {
        300
    }
}

/// The metrics once the command was sent.
pub open spec fn send_counted(m: MetricsModel, send: Result<(), Seq<char>>) -> MetricsModel {
    match send {
        Ok(_) => m,
        Err(_) => one_early_error(m),
    }
}

/// What follows the sending of the command: the marker to run up to and the seconds
/// that this may take, or the end of the request.
pub open spec fn send_step(
    send: Result<(), Seq<char>>,
    fork_time: Millis,
    timeout_seconds: u64,
) -> Result<(Seq<char>, u64), OutcomeModel> {
    match send {
        Ok(_) => Ok(("ZEROBOOT_DONE"@, time_limit(timeout_seconds))),
        Err(e) => Err(failed("Send failed: "@ + e, fork_time, no_time())),
    }
}

/// Takes the result of sending the command to the VM. Returns the marker to run up
/// to and the seconds that this may take.
pub fn send_done(
    metrics: &mut Metrics,
    req: &ExecRequest,
    fork_time: Millis,
    send: Result<(), String>,
) -> (r: Result<(&'static str, u64), Outcome>)
    ensures
        final(metrics)@ == send_counted(old(metrics)@, step_result(send)),
        send_step(step_result(send), fork_time, req.timeout_seconds) == match r {
            Ok((marker, secs)) => Ok::<(Seq<char>, u64), OutcomeModel>((marker@, secs)),
            Err(o) => Err::<(Seq<char>, u64), OutcomeModel>(o@),
        },
{
    match send {
        Ok(_) => Ok(("ZEROBOOT_DONE", clamp_timeout(req.timeout_seconds))),
        Err(e) => {
            count_early_error(metrics);
            let text: String = "Send failed: ".to_string();
            Err(fail(text.concat(e.as_str()), fork_time, Millis { hundredths: 0 }))
        },
    }
}

/// The text that a VM printed, without markers and with plain line ends.
pub open spec fn plain_lines(output: Seq<char>) -> Seq<char> {
    let unmarked = replace_all(output, "ZEROBOOT_DONE"@, seq![]);
    replace_all(replace_all(unmarked, "\r\n"@, "\n"@), "\r"@, seq![])
}

/// The text without its first line, where that line only echoes the code.
pub open spec fn without_echo(text: Seq<char>, code: Seq<char>) -> Seq<char> {
    match find_char(text, '\n') {
        Some(pos) => if trim(text.take(pos)) == trim(code) {
            text.skip(pos + 1)
        } else {
            text
        },
        None => text,
    }
}

/// What the code printed, from what the VM printed.
pub open spec fn printed(output: Seq<char>, code: Seq<char>) -> Seq<char> {
    trim(without_echo(plain_lines(output), code))
}

/// What the code printed, from what the VM printed.
pub fn clean_output(output: &str, code: &str) -> (r: String)
    ensures
        r@ == printed(output@, code@),
{
    proof {
        reveal_strlit("ZEROBOOT_DONE");
        reveal_strlit("\r\n");
        reveal_strlit("\r");
    }
    let nothing: Vec<char> = Vec::new();
    let raw = to_chars(output);
    let marker = to_chars("ZEROBOOT_DONE");
    let crlf = to_chars("\r\n");
    let newline = to_chars("\n");
    let cr = to_chars("\r");
    let unmarked = replace(&raw, &marker, &nothing);
    let joined = replace(&unmarked, &crlf, &newline);
    let text = replace(&joined, &cr, &nothing);
    assert(nothing@ =~= seq![]);
    assert(text@ == plain_lines(output@));
    let end: usize = text.len();
    let mut start: usize = 0;
    if let Some(pos) = find_from(&text, '\n', 0) {
        let (lo, hi) = trim_range(&text, 0, pos);
        let first = substring(&text, lo, hi);
        assert(text@.subrange(0, pos as int) =~= text@.take(pos as int));
        if first == trim_text(code) {
            start = pos + 1;
        }
    }
    assert(text@.subrange(start as int, text@.len() as int) =~= without_echo(text@, code@));
    let (lo, hi) = trim_range(&text, start, end);
    substring(&text, lo, hi)
}

/// The metrics with one more run of the given time in nanoseconds.
pub open spec fn run_counted(m: MetricsModel, exec_nanos: u64) -> MetricsModel {
    MetricsModel {
        exec_time_sum_us: m.exec_time_sum_us.wrapping_add(rounded(exec_nanos).micros() as u64),
        exec_time_hist: observed(m.exec_time_hist, exec_nanos),
        total_executions: m.total_executions.wrapping_add(1),
        ..m
    }
}

/// Whether a run failed because its time was up.
pub open spec fn timed_out(run: Result<Seq<char>, Seq<char>>) -> bool {
    run matches Err(e) && occurs(e, "timed out"@)
}

/// The text that a run left: what the VM printed, or why the run failed.
pub open spec fn run_text(run: Result<Seq<char>, Seq<char>>) -> Seq<char> {
    match run {
        Ok(s) => s,
        Err(e) => e,
    }
}

/// Whether a run ended well: it did not fail, and the VM printed the marker.
pub open spec fn succeeded(run: Result<Seq<char>, Seq<char>>) -> bool {
    run is Ok && occurs(run_text(run), "ZEROBOOT_DONE"@)
}

/// The metrics once a run has ended. One that did not end well is a timeout where its
/// time was up, and one error otherwise.
pub open spec fn run_result_counted(
    m: MetricsModel,
    exec_nanos: u64,
    run: Result<Seq<char>, Seq<char>>,
) -> MetricsModel {
    let counted = run_counted(m, exec_nanos);
    if timed_out(run) {
        MetricsModel { total_timeouts: counted.total_timeouts.wrapping_add(1), ..counted }
    } else if succeeded(run) {
        counted
    } else {
        one_error(counted)
    }
}

/// How a request ends once its code was run.
pub open spec fn run_outcome(
    code: Seq<char>,
    timeout_seconds: u64,
    fork_time: Millis,
    exec_nanos: u64,
    run: Result<Seq<char>, Seq<char>>,
) -> OutcomeModel {
    if timed_out(run) {
        failed(
            "Execution timed out after "@ + decimal(time_limit(timeout_seconds) as nat) + "s"@,
            fork_time,
            rounded(exec_nanos),
        )
    } else {
        let complete = occurs(run_text(run), "ZEROBOOT_DONE"@);
        OutcomeModel {
            stdout: printed(run_text(run), code),
            stderr: if complete {
                seq![]
            } else {
                "Process exited unexpectedly"@
            },
            exit_code: if complete {
                0int
            } else {
                -1
            },
            fork_time_ms: fork_time,
            exec_time_ms: rounded(exec_nanos),
        }
    }
}

/// The result of a run as text.
pub open spec fn run_view(run: Result<String, String>) -> Result<Seq<char>, Seq<char>> {
    match run {
        Ok(s) => Ok(s@),
        Err(e) => Err(e@),
    }
}

/// Takes the result of running the VM: what it printed, or why the run failed, and
/// how long it took in nanoseconds.
pub fn run_done(
    metrics: &mut Metrics,
    req: &ExecRequest,
    fork_time: Millis,
    exec_nanos: u64,
    run: Result<String, String>,
) -> (r: Outcome)
    ensures
        final(metrics)@ == run_result_counted(old(metrics)@, exec_nanos, run_view(run)),
        r@ == run_outcome(req.code@, req.timeout_seconds, fork_time, exec_nanos, run_view(run)),
{
    let exec_time = round2(exec_nanos);
    metrics.exec_time_sum_us = metrics.exec_time_sum_us.wrapping_add(exec_time.hundredths * 10);
    metrics.exec_time_hist.observe(exec_nanos);
    metrics.total_executions = metrics.total_executions.wrapping_add(1);
    let ran: bool = run.is_ok();
    let output: String = match run {
        Ok(s) => s,
        Err(e) => {
            let message = to_chars(e.as_str());
            let words = to_chars("timed out");
            if contains(&message, &words) {
                metrics.total_timeouts = metrics.total_timeouts.wrapping_add(1);
                let mut text: String = "Execution timed out after ".to_string();
                push_decimal(&mut text, clamp_timeout(req.timeout_seconds));
                text.append("s");
                return fail(text, fork_time, exec_time);
            }
            e
        },
    };
    let chars = to_chars(output.as_str());
    let marker = to_chars("ZEROBOOT_DONE");
    let complete: bool = contains(&chars, &marker);
    if !(ran && complete) {
        metrics.total_errors = metrics.total_errors.wrapping_add(1);
    }
    let stdout = clean_output(output.as_str(), req.code.as_str());
    if complete {
        Outcome {
            stdout,
            stderr: String::new(),
            exit_code: 0,
            fork_time_ms: fork_time,
            exec_time_ms: exec_time,
        }
    } else {
        Outcome {
            stdout,
            stderr: "Process exited unexpectedly".to_string(),
            exit_code: -1,
            fork_time_ms: fork_time,
            exec_time_ms: exec_time,
        }
    }
}

/// A reported time in nanoseconds, as far as 64 bits go.
pub open spec fn reported_nanos(t: Millis) -> u64 {
    if t.nanos() <= u64::MAX {
        t.nanos() as u64
    } else {
        u64::MAX
    }
}

/// The metrics once a request is over.
pub open spec fn finished(m: MetricsModel, total_nanos: u64) -> MetricsModel {
    MetricsModel {
        total_time_hist: observed(m.total_time_hist, reported_nanos(rounded(total_nanos))),
        concurrent_forks: m.concurrent_forks.wrapping_sub(1),
        ..m
    }
}

/// The answer to a request that has ended.
pub open spec fn response(id: Seq<char>, o: OutcomeModel, total_nanos: u64) -> ResponseModel {
    ResponseModel {
        id,
        stdout: o.stdout,
        stderr: o.stderr,
        exit_code: o.exit_code,
        fork_time_ms: o.fork_time_ms,
        exec_time_ms: o.exec_time_ms,
        total_time_ms: rounded(total_nanos),
    }
}

/// Ends a request, given the time that it took in all, in nanoseconds.
pub fn finish_execution(metrics: &mut Metrics, outcome: Outcome, id: &str, total_nanos: u64) -> (r:
    ExecResponse)
    ensures
        final(metrics)@ == finished(old(metrics)@, total_nanos),
        r@ == response(id@, outcome@, total_nanos),
{
    let total_time = round2(total_nanos);
    let reported: u64 = match total_time.hundredths.checked_mul(10_000) {
        Some(nanos) => nanos,
        None => u64::MAX,
    };
    metrics.total_time_hist.observe(reported);
    metrics.concurrent_forks = metrics.concurrent_forks.wrapping_sub(1);
    ExecResponse {
        id: id.to_string(),
        stdout: outcome.stdout,
        stderr: outcome.stderr,
        exit_code: outcome.exit_code,
        fork_time_ms: outcome.fork_time_ms,
        exec_time_ms: outcome.exec_time_ms,
        total_time_ms: total_time,
    }
}

/// What the steps of a request come to: whether there is a template, the results of
/// forking, sending and running, and the times.
pub struct Steps {
    pub has_template: bool,
    pub fork: Result<u64, Seq<char>>,
    pub send: Result<(), Seq<char>>,
    pub run: Result<Seq<char>, Seq<char>>,
    pub exec_nanos: u64,
    pub total_nanos: u64,
}

/// What a request asks for, as text.
pub struct ExecRequestModel {
    pub code: Seq<char>,
    pub language: Seq<char>,
    pub timeout_seconds: u64,
}

/// The metrics and the outcome of a request before it is finished, from the results
/// of its steps. Each step is only taken where the one before it succeeded.
pub open spec fn executed(m: MetricsModel, req: ExecRequestModel, steps: Steps) -> (
    MetricsModel,
    OutcomeModel,
) {
    let m1 = begun(m, steps.has_template);
    match first_step(steps.has_template, req.language) {
        Err(o) => (m1, o),
        Ok(_) => {
            let m2 = fork_counted(m1, steps.fork);
            match fork_step(steps.fork, req.code) {
                Err(o) => (m2, o),
                Ok((fork_time, _)) => {
                    let m3 = send_counted(m2, steps.send);
                    match send_step(steps.send, fork_time, req.timeout_seconds) {
                        Err(o) => (m3, o),
                        Ok(_) => (
                            run_result_counted(m3, steps.exec_nanos, steps.run),
                            run_outcome(
                                req.code,
                                req.timeout_seconds,
                                fork_time,
                                steps.exec_nanos,
                                steps.run,
                            ),
                        ),
                    }
                },
            }
        },
    }
}

/// The metrics and the answer once a request is finished.
pub open spec fn answered(
    m: MetricsModel,
    req: ExecRequestModel,
    id: Seq<char>,
    steps: Steps,
) -> (MetricsModel, ResponseModel) {
    let (after, outcome) = executed(m, req, steps);
    (finished(after, steps.total_nanos), response(id, outcome, steps.total_nanos))
}

/// Whether the code of a request was run.
pub open spec fn was_run(steps: Steps) -> bool {
    steps.has_template && steps.fork is Ok && steps.send is Ok
}

/// However a request ends, the number of concurrent forks is what it was before, and
/// its whole time was recorded once.
pub proof fn law_forks_released(
    m: MetricsModel,
    req: ExecRequestModel,
    id: Seq<char>,
    steps: Steps,
)
    ensures
        answered(m, req, id, steps).0.concurrent_forks == m.concurrent_forks,
        answered(m, req, id, steps).0.total_time_hist.count == m.total_time_hist.count.wrapping_add(
            1,
        ),
{
}

/// Runs are counted, and timed, if and only if the code was run.
pub proof fn law_runs_counted(
    m: MetricsModel,
    req: ExecRequestModel,
    id: Seq<char>,
    steps: Steps,
)
    ensures
        ({
            let after = answered(m, req, id, steps).0;
            if was_run(steps) {
                &&& after.total_executions == m.total_executions.wrapping_add(1)
                &&& after.exec_time_hist == observed(m.exec_time_hist, steps.exec_nanos)
            } else {
                &&& after.total_executions == m.total_executions
                &&& after.exec_time_hist == m.exec_time_hist
                &&& after.early_errors == m.early_errors.wrapping_add(1)
            }
        }),
{
}

/// A request that ends with exit code -1, and not because its time was up, is counted
/// as one error and as no timeout.
pub proof fn law_failure_counted_once(
    m: MetricsModel,
    req: ExecRequestModel,
    id: Seq<char>,
    steps: Steps,
)
    requires
        answered(m, req, id, steps).1.exit_code == -1,
        !(was_run(steps) && timed_out(steps.run)),
    ensures
        answered(m, req, id, steps).0.total_errors == m.total_errors.wrapping_add(1),
        answered(m, req, id, steps).0.total_timeouts == m.total_timeouts,
{
}

/// Every step keeps every error and every timeout accounted for, in whatever order
/// the steps of several requests come.
pub proof fn law_accounted(
    m: MetricsModel,
    has_template: bool,
    fork: Result<u64, Seq<char>>,
    send: Result<(), Seq<char>>,
    exec_nanos: u64,
    run: Result<Seq<char>, Seq<char>>,
    total_nanos: u64,
)
    requires
        accounted(m),
        m.total_errors < u64::MAX,
        m.total_executions < u64::MAX,
    ensures
        accounted(fresh_metrics()),
        accounted(begun(m, has_template)),
        accounted(fork_counted(m, fork)),
        accounted(send_counted(m, send)),
        accounted(run_result_counted(m, exec_nanos, run)),
        accounted(finished(m, total_nanos)),
{
}

/// The number of successes grows by one with a run that ends well, and with no other
/// step, in whatever order the steps of several requests come.
pub proof fn law_success_steps(
    m: MetricsModel,
    has_template: bool,
    fork: Result<u64, Seq<char>>,
    send: Result<(), Seq<char>>,
    exec_nanos: u64,
    run: Result<Seq<char>, Seq<char>>,
    total_nanos: u64,
)
    requires
        accounted(m),
        m.total_errors < u64::MAX,
        m.total_executions < u64::MAX,
    ensures
        successes(begun(m, has_template)) == successes(m),
        successes(fork_counted(m, fork)) == successes(m),
        successes(send_counted(m, send)) == successes(m),
        successes(run_result_counted(m, exec_nanos, run)) == successes(m) + if succeeded(run) {
            1int
        } else {
            0
        },
        successes(finished(m, total_nanos)) == successes(m),
{
}

/// The exit code is 0 if and only if the code was run, in time, and the text that the
/// run left holds the marker. Otherwise it is -1 and the answer says why.
pub proof fn law_exit_code(m: MetricsModel, req: ExecRequestModel, id: Seq<char>, steps: Steps)
    ensures
        ({
            let r = answered(m, req, id, steps).1;
            let good = was_run(steps) && !timed_out(steps.run) && occurs(
                run_text(steps.run),
                "ZEROBOOT_DONE"@,
            );
            &&& r.id == id
            &&& r.exit_code == if good {
                0int
            } else {
                -1
            }
            &&& (r.stderr.len() == 0) == good
        }),
{
    reveal_strlit("No template for language: ");
    reveal_strlit("Fork failed: ");
    reveal_strlit("Send failed: ");
    reveal_strlit("Execution timed out after ");
    reveal_strlit("Process exited unexpectedly");
}

/// A request counts as one more success if and only if its code was run and the run
/// ended well.
pub proof fn law_success_counted(
    m: MetricsModel,
    req: ExecRequestModel,
    id: Seq<char>,
    steps: Steps,
)
    requires
        accounted(m),
        m.total_errors < u64::MAX,
        m.total_executions < u64::MAX,
    ensures
        accounted(answered(m, req, id, steps).0),
        successes(answered(m, req, id, steps).0) == successes(m) + if was_run(steps)
            && succeeded(steps.run) {
            1int
        } else {
            0
        },
{
}

/// A run whose time is up counts as a timeout and as nothing else, and prints
/// nothing.
pub proof fn law_timeout_counted(
    m: MetricsModel,
    req: ExecRequestModel,
    id: Seq<char>,
    steps: Steps,
)
    requires
        was_run(steps),
        timed_out(steps.run),
    ensures
        ({
            let (after, r) = answered(m, req, id, steps);
            &&& after.total_timeouts == m.total_timeouts.wrapping_add(1)
            &&& after.total_errors == m.total_errors
            &&& r.stdout.len() == 0
            &&& r.exit_code == -1
        }),
{
}

/// No request may run for more than 300 seconds.
pub proof fn law_time_limit(timeout_seconds: u64)
    ensures
        time_limit(timeout_seconds) <= 300,
        time_limit(timeout_seconds) <= timeout_seconds,
{
}

/// Every request leaves the histograms with each time counted in one bucket.
pub proof fn law_histograms_agree(
    m: MetricsModel,
    req: ExecRequestModel,
    id: Seq<char>,
    steps: Steps,
)
    requires
        counts_agree(m.fork_time_hist),
        counts_agree(m.exec_time_hist),
        counts_agree(m.total_time_hist),
    ensures
        counts_agree(answered(m, req, id, steps).0.fork_time_hist),
        counts_agree(answered(m, req, id, steps).0.exec_time_hist),
        counts_agree(answered(m, req, id, steps).0.total_time_hist),
{
    if let Ok(nanos) = steps.fork {
        law_counts_agree(m.fork_time_hist, nanos);
    }
    law_counts_agree(m.exec_time_hist, steps.exec_nanos);
    law_counts_agree(
        m.total_time_hist,
        reported_nanos(rounded(steps.total_nanos)),
    );
}

proof fn lemma_char_removed(s: Seq<char>, pat: Seq<char>)
    requires
        pat.len() == 1,
    ensures
        !replace_all(s, pat, seq![]).contains(pat[0]),
    decreases s.len(),
{
    if s.len() > 0 {
        let none: Seq<char> = seq![];
        if stands_at(s, pat, 0) {
            lemma_char_removed(s.skip(1), pat);
            assert(none + replace_all(s.skip(1), pat, none) =~= replace_all(s.skip(1), pat, none));
        } else {
            lemma_char_removed(s.drop_first(), pat);
            let rest = replace_all(s.drop_first(), pat, none);
            let all = seq![s[0]] + rest;
            assert(s[0] != pat[0]) by {
                if s[0] == pat[0] {
                    assert(s.subrange(0, 1) =~= pat);
                }
            }
            assert forall|i: int| 0 <= i < all.len() implies all[i] != pat[0] by {
                if i > 0 {
                    assert(all[i] == rest[i - 1]);
                    assert(rest.contains(rest[i - 1]));
                }
            }
        }
    }
}

proof fn lemma_trim_within(s: Seq<char>, c: char)
    requires
        !s.contains(c),
    ensures
        !trim(s).contains(c),
{
    lemma_trim_start_within(s, c);
    lemma_trim_end_within(trim_start(s), c);
}

proof fn lemma_trim_start_within(s: Seq<char>, c: char)
    requires
        !s.contains(c),
    ensures
        !trim_start(s).contains(c),
    decreases s.len(),
{
    if s.len() > 0 && is_white(s[0]) {
        assert(!s.drop_first().contains(c)) by {
            if s.drop_first().contains(c) {
                let i = choose|i: int| 0 <= i < s.drop_first().len() && s.drop_first()[i] == c;
                assert(s[i + 1] == c);
            }
        }
        lemma_trim_start_within(s.drop_first(), c);
    }
}

proof fn lemma_trim_end_within(s: Seq<char>, c: char)
    requires
        !s.contains(c),
    ensures
        !trim_end(s).contains(c),
    decreases s.len(),
{
    if s.len() > 0 && is_white(s.last()) {
        assert(!s.drop_last().contains(c)) by {
            if s.drop_last().contains(c) {
                let i = choose|i: int| 0 <= i < s.drop_last().len() && s.drop_last()[i] == c;
                assert(s[i] == c);
            }
        }
        lemma_trim_end_within(s.drop_last(), c);
    }
}

/// What the code printed has no carriage return, and no white space at either end.
pub proof fn law_printed_clean(output: Seq<char>, code: Seq<char>)
    ensures
        !printed(output, code).contains('\r'),
        printed(output, code).len() > 0 ==> !is_white(printed(output, code)[0]) && !is_white(
            printed(output, code).last(),
        ),
{
    reveal_strlit("\r");
    let unmarked = replace_all(output, "ZEROBOOT_DONE"@, seq![]);
    lemma_char_removed(replace_all(unmarked, "\r\n"@, "\n"@), "\r"@);
    let text = plain_lines(output);
    let body = without_echo(text, code);
    assert(!body.contains('\r')) by {
        if body.contains('\r') {
            lemma_first_in(
                char_at(text, '\n'),
                0,
                text.len() as int,
            );
            let i = choose|i: int| 0 <= i < body.len() && body[i] == '\r';
            let from = text.len() - body.len();
            assert(text[from + i] == '\r');
        }
    }
    lemma_trim_within(body, '\r');
    law_trimmed(body);
}

} // verus!
