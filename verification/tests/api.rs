use axum::http::{HeaderMap, HeaderValue};
use zeroboot::api::access::{
    authorize, bearer_key, check_auth, check_key, check_rate_limit, client_ip, draw_token,
    extract_api_key, extract_client_ip, mask_key, AppState, Rejection,
};
use zeroboot::api::exec::{
    begin_execution, clean_output, default_language, default_timeout, finish_execution, fork_done,
    run_done, send_done, template_name, ExecRequest, ExecResponse, Outcome,
};
use zeroboot::api::headers::get_text;
use zeroboot::api::metrics::{format_bucket, Histogram, Metrics};
use zeroboot::api::millis::{round2, Millis};
use zeroboot::api::rate_limit::TokenBucket;
use zeroboot::api::service::{
    code_snippet, health, label_batch, label_job, rss_bytes, rss_kib, BatchRequest,
};

const SECOND: u64 = 1_000_000_000;

fn strings(s: &[&str]) -> Vec<String> {
    s.iter().map(|x| x.to_string()).collect()
}

fn headers(h: &[(&'static str, &str)]) -> HeaderMap {
    let mut m = HeaderMap::new();
    for (k, v) in h {
        m.append(*k, HeaderValue::from_str(v).unwrap());
    }
    m
}

fn state(keys: &[&str]) -> AppState {
    AppState::new(strings(&["python", "node"]), strings(keys))
}

fn request(code: &str, language: &str, timeout_seconds: u64) -> ExecRequest {
    ExecRequest { code: code.to_string(), language: language.to_string(), timeout_seconds }
}

fn refused(r: &Rejection) -> (u16, &str, bool) {
    (r.status, r.body.error.as_str(), r.body.request_id.is_none())
}

fn ms(hundredths: u64) -> Millis {
    Millis { hundredths }
}

#[test]
fn header_text() {
    let mut h = headers(&[("x-test", "one"), ("x-test", "two"), ("x-space", " a\tb ")]);
    assert_eq!(get_text(&h, "x-test"), Some("one".to_string()));
    assert_eq!(get_text(&h, "x-space"), Some(" a\tb ".to_string()));
    assert_eq!(get_text(&h, "x-none"), None);
    h.insert("x-test", HeaderValue::from_bytes(&[b'a', 0xe9]).unwrap());
    assert_eq!(get_text(&h, "x-test"), None);
}

#[test]
fn api_key_of_a_request() {
    assert_eq!(extract_api_key(&headers(&[("authorization", "Bearer k1")])), Some("k1".to_string()));
    assert_eq!(extract_api_key(&headers(&[("Authorization", "Bearer  k1")])), Some(" k1".to_string()));
    assert_eq!(extract_api_key(&headers(&[("authorization", "bearer k1")])), None);
    assert_eq!(extract_api_key(&headers(&[("authorization", "Basic k1")])), None);
    assert_eq!(extract_api_key(&headers(&[])), None);
    assert_eq!(bearer_key(Some("Bearer ".to_string())), Some(String::new()));
    assert_eq!(bearer_key(None), None);
}

#[test]
fn authentication() {
    let s = state(&["zb_live_key1", "zb_live_key2"]);
    let ok = headers(&[("authorization", "Bearer zb_live_key2")]);
    assert_eq!(check_auth(&s, &ok).unwrap(), "zb_live_key2");
    let bad = headers(&[("authorization", "Bearer zb_live_key3")]);
    assert_eq!(refused(&check_auth(&s, &bad).unwrap_err()), (401, "Invalid API key", true));
    assert_eq!(
        refused(&check_auth(&s, &headers(&[])).unwrap_err()),
        (401, "Missing Authorization header", true)
    );
    assert_eq!(check_auth(&state(&[]), &bad).unwrap(), "anonymous");
    assert_eq!(check_key(&strings(&["a"]), Some("a".to_string())).unwrap(), "a");
}

#[test]
fn client_addresses() {
    let all = headers(&[("cf-connecting-ip", " 1.1.1.1 "), ("x-forwarded-for", "2.2.2.2, 3.3.3.3")]);
    assert_eq!(extract_client_ip(&all, "9.9.9.9"), "1.1.1.1");
    let fwd = headers(&[("cf-connecting-ip", "  "), ("x-forwarded-for", " 2.2.2.2 , 3.3.3.3")]);
    assert_eq!(extract_client_ip(&fwd, "9.9.9.9"), "2.2.2.2");
    let empty = headers(&[("x-forwarded-for", ",3.3.3.3")]);
    assert_eq!(extract_client_ip(&empty, "9.9.9.9"), "9.9.9.9");
    assert_eq!(extract_client_ip(&headers(&[]), "9.9.9.9"), "9.9.9.9");
    assert_eq!(client_ip(None, Some("5.5.5.5".to_string()), "9.9.9.9"), "5.5.5.5");
}

#[test]
fn bucket_burst_and_refill() {
    let mut b = TokenBucket::with_capacity(6000, 6000, 0);
    for _ in 0..100 {
        assert!(b.try_consume(0));
    }
    assert!(!b.try_consume(0));
    assert!(!b.try_consume(SECOND / 100 - 1));
    assert!(b.try_consume(SECOND / 100));
    assert!(!b.try_consume(SECOND / 100));
    for _ in 0..100 {
        assert!(b.try_consume(1000 * SECOND));
    }
    assert!(!b.try_consume(1000 * SECOND));
    assert!(!b.try_consume(0));
}

#[test]
fn small_buckets_hold_one_token() {
    let mut b = TokenBucket::new(30, 0);
    assert!(b.try_consume(0));
    assert!(!b.try_consume(SECOND));
    assert!(b.try_consume(2 * SECOND));
    let mut c = TokenBucket::new(180, 0);
    assert!(c.try_consume(0) && c.try_consume(0) && c.try_consume(0) && !c.try_consume(0));
}

#[test]
fn key_rate_limit() {
    let mut s = state(&["k", "other"]);
    let h = headers(&[]);
    for _ in 0..100 {
        assert!(check_rate_limit(&mut s, "k", &h, "9.9.9.9", 0).is_ok());
    }
    let e = check_rate_limit(&mut s, "k", &h, "8.8.8.8", 0).unwrap_err();
    assert_eq!(refused(&e), (429, "Rate limit exceeded (100 req/s)", true));
    assert!(check_rate_limit(&mut s, "other", &h, "9.9.9.9", 0).is_ok());
    assert!(check_rate_limit(&mut s, "k", &h, "9.9.9.9", SECOND).is_ok());
}

#[test]
fn demo_rate_limit() {
    let mut s = state(&["zb_demo_1", "zb_demo_2"]);
    let h = headers(&[("x-forwarded-for", "2.2.2.2")]);
    for i in 0..10 {
        let key = if i % 2 == 0 { "zb_demo_1" } else { "zb_demo_2" };
        assert!(check_rate_limit(&mut s, key, &h, "9.9.9.9", 0).is_ok());
    }
    let e = check_rate_limit(&mut s, "zb_demo_1", &h, "9.9.9.9", 5 * SECOND).unwrap_err();
    assert_eq!(refused(&e), (429, "Rate limit exceeded (10 req/min for demo keys)", true));
    assert!(check_rate_limit(&mut s, "zb_demo_1", &h, "9.9.9.9", 6 * SECOND).is_ok());
    assert!(check_rate_limit(&mut s, "zb_demo_1", &headers(&[]), "9.9.9.9", 6 * SECOND).is_ok());
}

#[test]
fn no_keys_no_limit() {
    let mut s = state(&[]);
    for _ in 0..500 {
        assert!(check_rate_limit(&mut s, "anonymous", &headers(&[]), "9.9.9.9", 0).is_ok());
    }
    assert!(s.rate_limiters.is_empty());
    assert!(draw_token(&mut s.rate_limiters, "k", "ip", 0).is_ok());
    assert!(s.rate_limiters.contains_key("k"));
}

#[test]
fn masks() {
    assert_eq!(mask_key("zb_live_key1"), "zb_l...key1");
    assert_eq!(mask_key("123456789"), "1234...6789");
    assert_eq!(mask_key("12345678"), "***");
    assert_eq!(mask_key("zb_l-another-key1"), mask_key("zb_live_key1"));
}

#[test]
fn authorized_caller() {
    let mut s = state(&["zb_live_key1"]);
    let h = headers(&[("authorization", "Bearer zb_live_key1"), ("cf-connecting-ip", "1.1.1.1")]);
    let c = authorize(&mut s, &h, "9.9.9.9", 0).unwrap();
    assert_eq!((c.api_key.as_str(), c.client_ip.as_str(), c.masked_key.as_str()),
        ("zb_live_key1", "1.1.1.1", "zb_l...key1"));
    let bad = headers(&[("authorization", "Bearer nope")]);
    assert_eq!(authorize(&mut s, &bad, "9.9.9.9", 0).unwrap_err().status, 401);
    assert!(!s.rate_limiters.contains_key("nope"));
    for _ in 0..99 {
        assert!(authorize(&mut s, &h, "9.9.9.9", 0).is_ok());
    }
    assert_eq!(authorize(&mut s, &h, "9.9.9.9", 0).unwrap_err().status, 429);
    assert_eq!(authorize(&mut state(&[]), &bad, "9.9.9.9", 0).unwrap().masked_key, "anon...mous");
}

#[test]
fn rounding() {
    assert_eq!(round2(0), ms(0));
    assert_eq!(round2(4_999), ms(0));
    assert_eq!(round2(5_000), ms(1));
    assert_eq!(round2(754_999), ms(75));
    assert_eq!(round2(755_000), ms(76));
    assert_eq!(round2(u64::MAX).hundredths, 1844674407370955);
}

#[test]
fn histogram_text() {
    let mut h = Histogram::new();
    h.observe(100_000);
    h.observe(100_001);
    h.observe(3_000_000_000);
    h.observe(1_000_000_000);
    let text = h.render("m", "Help text");
    let expected = "# HELP m Help text\n# TYPE m histogram\n\
        m_bucket{le=\"0.1\"} 1\nm_bucket{le=\"0.25\"} 2\nm_bucket{le=\"0.5\"} 2\n\
        m_bucket{le=\"1\"} 2\nm_bucket{le=\"2.5\"} 2\nm_bucket{le=\"5\"} 2\n\
        m_bucket{le=\"10\"} 2\nm_bucket{le=\"25\"} 2\nm_bucket{le=\"50\"} 2\n\
        m_bucket{le=\"100\"} 2\nm_bucket{le=\"250\"} 2\nm_bucket{le=\"500\"} 2\n\
        m_bucket{le=\"1000\"} 3\nm_bucket{le=\"+Inf\"} 4\nm_sum 4000.2\nm_count 4\n";
    assert_eq!(text, expected);
}

#[test]
fn histogram_sums() {
    for us in [0u64, 1, 10, 100, 1000, 1500, 1050, 1005, 123456] {
        let mut h = Histogram::new();
        h.observe(us * 1000);
        let line = format!("m_sum {}\n", us as f64 / 1000.0);
        assert!(h.render("m", "").contains(&line), "{}", line);
    }
}

#[test]
fn bucket_labels() {
    let bounds = [0.1, 0.25, 0.5, 1.0, 2.5, 5.0, 10.0, 25.0, 50.0, 100.0, 250.0, 500.0, 1000.0];
    for (i, b) in bounds.iter().enumerate() {
        assert_eq!(format_bucket(i), format!("{}", b));
    }
}

#[test]
fn metrics_text() {
    let mut m = Metrics::new();
    m.total_executions = 10;
    m.total_errors = 2;
    m.total_timeouts = 1;
    m.concurrent_forks = 3;
    m.fork_time_sum_us = 44;
    m.exec_time_sum_us = 55;
    let text = m.render(66);
    let head = "# HELP zeroboot_total_executions Total number of executions\n\
         # TYPE zeroboot_total_executions counter\n\
         zeroboot_total_executions{status=\"success\"} 7\n\
         zeroboot_total_executions{status=\"error\"} 2\n\
         zeroboot_total_executions{status=\"timeout\"} 1\n\
         # HELP zeroboot_concurrent_forks Current number of concurrent forks\n\
         # TYPE zeroboot_concurrent_forks gauge\n\
         zeroboot_concurrent_forks 3\n\
         # HELP zeroboot_fork_time_microseconds_total Sum of fork times\n\
         # TYPE zeroboot_fork_time_microseconds_total counter\n\
         zeroboot_fork_time_microseconds_total 44\n\
         # HELP zeroboot_exec_time_microseconds_total Sum of exec times\n\
         # TYPE zeroboot_exec_time_microseconds_total counter\n\
         zeroboot_exec_time_microseconds_total 55\n\
         # HELP zeroboot_memory_usage_bytes RSS memory usage\n\
         # TYPE zeroboot_memory_usage_bytes gauge\n\
         zeroboot_memory_usage_bytes 66\n\
         # HELP zeroboot_fork_time_milliseconds Histogram of VM fork times in milliseconds\n";
    assert!(text.starts_with(head));
    assert!(text.contains("# HELP zeroboot_exec_time_milliseconds Histogram of code execution times in milliseconds\n"));
    assert!(text.ends_with("zeroboot_total_time_milliseconds_sum 0\nzeroboot_total_time_milliseconds_count 0\n"));
    m.total_errors = 20;
    assert!(m.render(0).contains("{status=\"success\"} 0\n"));
}

#[test]
fn request_defaults() {
    assert_eq!(default_language(), "python");
    assert_eq!(default_timeout(), 30);
}

#[test]
fn templates_by_language() {
    for (l, t) in [("node", "node"), ("javascript", "node"), ("python", "python"), ("ruby", "python")] {
        assert_eq!(template_name(&l.to_string()), t);
    }
}

#[test]
fn good_execution() {
    let mut m = Metrics::new();
    let req = request("print(1 + 1)", "python", 30);
    assert_eq!(begin_execution(&mut m, &strings(&["python"]), &req), Ok("python"));
    assert_eq!(m.concurrent_forks, 1);
    let (fork_time, command) = fork_done(&mut m, &req, Ok(754_321)).unwrap();
    assert_eq!((fork_time, command.as_str()), (ms(75), "CODE:print(1 + 1)\n"));
    assert_eq!(m.fork_time_sum_us, 754);
    assert_eq!(send_done(&mut m, &req, fork_time, Ok(())), Ok(("ZEROBOOT_DONE", 30)));
    let out = "print(1 + 1)\r\n2\r\nZEROBOOT_DONE\r\n".to_string();
    let o = run_done(&mut m, &req, fork_time, 7_204_000, Ok(out));
    assert_eq!((m.total_executions, m.total_errors, m.total_timeouts), (1, 0, 0));
    assert_eq!(m.exec_time_sum_us, 7200);
    let r = finish_execution(&mut m, o, "id-1", 8_001_000);
    assert_eq!(
        r,
        ExecResponse {
            id: "id-1".to_string(),
            stdout: "2".to_string(),
            stderr: String::new(),
            exit_code: 0,
            fork_time_ms: ms(75),
            exec_time_ms: ms(720),
            total_time_ms: ms(800),
        }
    );
    assert_eq!(m.concurrent_forks, 0);
    assert!(m.total_time_hist.render("t", "").ends_with("t_sum 8\nt_count 1\n"));
    assert!(m.render(0).contains("{status=\"success\"} 1\n"));
}

#[test]
fn missing_template() {
    let mut m = Metrics::new();
    let req = request("1", "javascript", 30);
    let o = begin_execution(&mut m, &strings(&["python"]), &req).unwrap_err();
    assert_eq!(
        o,
        Outcome {
            stdout: String::new(),
            stderr: "No template for language: javascript".to_string(),
            exit_code: -1,
            fork_time_ms: ms(0),
            exec_time_ms: ms(0),
        }
    );
    finish_execution(&mut m, o, "x", 0);
    assert_eq!((m.total_errors, m.total_executions, m.concurrent_forks), (1, 0, 0));
    assert_eq!(m.early_errors, 1);
    let o = run_done(&mut m, &req, ms(5), 0, Ok("2\nZEROBOOT_DONE".to_string()));
    assert_eq!(o.exit_code, 0);
    assert!(m.render(0).contains("{status=\"success\"} 1\n"));
    assert!(m.render(0).contains("{status=\"error\"} 1\n"));
}

#[test]
fn failed_steps() {
    let mut m = Metrics::new();
    let req = request("1", "python", 30);
    let o = fork_done(&mut m, &req, Err("no memory".to_string())).unwrap_err();
    assert_eq!((o.stderr.as_str(), o.exit_code, o.fork_time_ms), ("Fork failed: no memory", -1, ms(0)));
    let o = send_done(&mut m, &req, ms(5), Err("closed".to_string())).unwrap_err();
    assert_eq!((o.stderr.as_str(), o.exit_code, o.fork_time_ms, o.exec_time_ms),
        ("Send failed: closed", -1, ms(5), ms(0)));
    assert_eq!((m.total_errors, m.early_errors), (2, 2));
}

#[test]
fn timeouts() {
    let mut m = Metrics::new();
    let req = request("while True: pass", "python", 1000);
    assert_eq!(send_done(&mut m, &req, ms(5), Ok(())), Ok(("ZEROBOOT_DONE", 300)));
    let o = run_done(&mut m, &req, ms(5), SECOND, Err("execution timed out".to_string()));
    assert_eq!((o.stdout.as_str(), o.stderr.as_str(), o.exit_code),
        ("", "Execution timed out after 300s", -1));
    assert_eq!((m.total_executions, m.total_errors, m.total_timeouts), (1, 0, 1));
}

#[test]
fn unexpected_exit() {
    let mut m = Metrics::new();
    let req = request("1", "python", 30);
    let o = run_done(&mut m, &req, ms(5), 0, Ok("partial\n".to_string()));
    assert_eq!((o.stdout.as_str(), o.stderr.as_str(), o.exit_code),
        ("partial", "Process exited unexpectedly", -1));
    assert_eq!((m.total_executions, m.total_errors), (1, 1));
    let o = run_done(&mut m, &req, ms(5), 0, Err("vcpu stopped".to_string()));
    assert_eq!((o.stdout.as_str(), o.stderr.as_str(), o.exit_code),
        ("vcpu stopped", "Process exited unexpectedly", -1));
    assert_eq!((m.total_executions, m.total_errors, m.total_timeouts), (2, 2, 0));
    let o = run_done(&mut m, &req, ms(5), 0, Err("lost ZEROBOOT_DONE".to_string()));
    assert_eq!((o.stdout.as_str(), o.stderr.as_str(), o.exit_code), ("lost", "", 0));
    assert_eq!((m.total_executions, m.total_errors, m.total_timeouts), (3, 3, 0));
}

#[test]
fn cleaned_output() {
    assert_eq!(clean_output("2\nZEROBOOT_DONE\n", "print(2)"), "2");
    assert_eq!(clean_output(" print(2) \n2\n", "print(2)"), "2");
    assert_eq!(clean_output("print(2)\n", "print(3)"), "print(2)");
    assert_eq!(clean_output("print(2)", "print(2)"), "print(2)");
    assert_eq!(clean_output("a\rb\r\nc\n\n", ""), "ab\nc");
    assert_eq!(clean_output("\nx", ""), "x");
    assert_eq!(clean_output("ZEROBOOT_DONE", "x"), "");
}

#[test]
fn snippets() {
    assert_eq!(code_snippet("abc"), "abc");
    let long: String = std::iter::repeat('é').take(600).collect();
    assert_eq!(code_snippet(&long).chars().count(), 500);
}

#[test]
fn request_labels() {
    let a = label_job(&request("print(1)", "python", 30));
    let b = label_job(&request("print(1)", "python", 30));
    assert_eq!((a.language.as_str(), a.snippet.as_str()), ("python", "print(1)"));
    assert_ne!(a.request_id, b.request_id);
    for id in [&a.request_id, &b.request_id] {
        assert_eq!(id.len(), 36);
        assert_eq!(id.chars().nth(14), Some('7'));
        assert!("89ab".contains(id.chars().nth(19).unwrap()));
        for (i, c) in id.chars().enumerate() {
            assert_eq!(c == '-', i == 8 || i == 13 || i == 18 || i == 23);
            assert!(c == '-' || c.is_digit(16));
        }
    }
    let batch = BatchRequest { executions: vec![request("1", "node", 1), request("2", "python", 1)] };
    let labels = label_batch(&batch);
    assert_eq!(labels.len(), 2);
    assert_eq!((labels[0].language.as_str(), labels[1].snippet.as_str()), ("node", "2"));
}

#[test]
fn health_report() {
    let h = health(&vec![("node".to_string(), 128), ("python".to_string(), 256)]);
    assert_eq!(h.status, "ok");
    assert_eq!(h.templates.len(), 2);
    assert_eq!(h.templates[0].0, "node");
    assert!(h.templates[0].1.ready && !h.templates[0].1.numpy);
    assert!(h.templates[1].1.ready && h.templates[1].1.numpy);
    assert_eq!((h.templates[0].1.memory_mb, h.templates[1].1.memory_mb), (128, 256));
}

#[test]
fn resident_memory() {
    let text = "Name:\tx\nVmHWM:\t   900 kB\nVmRSS:\t   1234 kB\nVmRSS: 5 kB\n";
    assert_eq!(rss_kib(text), Some(1234));
    assert_eq!(rss_bytes(rss_kib(text)), 1263616);
    assert_eq!(rss_kib("VmRSS:   77"), Some(77));
    assert_eq!(rss_kib(" VmRSS: 77\n"), None);
    assert_eq!(rss_kib("VmRSS:\n77"), None);
    assert_eq!(rss_kib("VmRSS: x kB\n"), None);
    assert_eq!(rss_kib(""), None);
    assert_eq!(rss_bytes(None), 0);
}
