//! The interceptors that every connection is given, for a token and a deadline.
use easy_rpc::interceptors::{
    chain_begun, chain_intercepted, chain_observed, chain_sent, run_chain, ChainStep, standard_interceptors, DeadlineInterceptor, Mode, Standard,
};
use easy_rpc::protocol::{Headers, MetadataInterceptor, RPCError, Request, TimeoutInterceptor};

fn request(headers: Headers) -> Request {
    Request { url: "/x".into(), method: "POST".into(), headers, body: None }
}

fn sent(token: &str, timeout_ms: u64, headers: Headers) -> Headers {
    run_chain(&standard_interceptors(token, timeout_ms), request(headers)).unwrap().headers
}

#[test]
fn injected_adapter_gets_standard_interceptors() {
    let h = sent("sekret", 1500, Headers::new());
    assert_eq!(
        h.get("authorization").and_then(|v| v.first()).map(String::as_str),
        Some("Bearer sekret")
    );
    assert_eq!(
        h.get("connect-timeout-ms").and_then(|v| v.first()).map(String::as_str),
        Some("1500")
    );
}

#[test]
fn no_opts_leaves_injected_adapter_untouched() {
    let mut h = Headers::new();
    h.insert("a".into(), vec!["b".into()]);
    let got = sent("", 0, h);
    assert!(!got.contains_key("authorization"));
    assert_eq!(got.get("a").and_then(|v| v.first()).map(String::as_str), Some("b"));
    assert!(standard_interceptors("", 0).is_empty());
}

#[test]
fn mode_connect_still_works() {
    let _mode = Mode::Auto;
    assert_ne!(Mode::Auto, Mode::Hyper);
}

#[test]
fn a_call_keeps_its_own_token() {
    let mut h = Headers::new();
    h.insert("authorization".into(), vec!["mine".into()]);
    let got = sent("sekret", 0, h);
    assert_eq!(got.get("authorization").unwrap(), &vec!["mine".to_string()]);
}

#[test]
fn a_chain_runs_the_first_interceptor_first() {
    let mut md = Headers::new();
    md.insert("connect-timeout-ms".into(), vec!["7".into()]);
    let metadata = || Standard::Metadata(MetadataInterceptor(md.clone()));
    let timeout = || Standard::Timeout(TimeoutInterceptor(9));
    let first = run_chain(&vec![metadata(), timeout()], request(Headers::new())).unwrap();
    assert_eq!(first.headers.get("connect-timeout-ms").unwrap(), &vec!["9".to_string()]);
    let second = run_chain(&vec![timeout(), metadata()], request(Headers::new())).unwrap();
    assert_eq!(second.headers.get("connect-timeout-ms").unwrap(), &vec!["9".to_string()]);
    let third = run_chain(&vec![metadata()], request(Headers::new())).unwrap();
    assert_eq!(third.headers.get("connect-timeout-ms").unwrap(), &vec!["7".to_string()]);
}

#[test]
fn a_deadline_sets_the_header_and_limits_the_call() {
    let d = DeadlineInterceptor(250);
    assert_eq!(d.limit(), Some(250));
    let r = d.intercept(request(Headers::new())).unwrap();
    assert_eq!(r.headers.get("connect-timeout-ms").unwrap()[0], "250");
    assert_eq!(r.url, "/x");
    let d = DeadlineInterceptor(0);
    assert_eq!(d.limit(), None);
    assert!(d.intercept(request(Headers::new())).unwrap().headers.is_empty());
}

/// Runs a call through interceptors that each add their place to the URL; the one
/// at `fails` fails. The call is answered with the URL that was sent, unless `down`.
fn run_call(
    count: usize,
    fails: Option<usize>,
    down: bool,
    observed: bool,
) -> (Vec<String>, Result<String, i32>) {
    let mut log = Vec::new();
    let mut step: ChainStep<String> = chain_begun(count, request(Headers::new()));
    loop {
        step = match step {
            ChainStep::Intercept(i, mut r) => {
                log.push(format!("intercept {i} {}", r.url));
                r.url = format!("{}{i}", r.url);
                let result = if fails == Some(i) { Err(RPCError::new(7, "no")) } else { Ok(r) };
                chain_intercepted(count, i, result)
            }
            ChainStep::Send(r) => {
                log.push(format!("send {}", r.url));
                let reply = if down { Err(RPCError::new(14, "down")) } else { Ok(r.url.clone()) };
                chain_sent(count, observed, r, reply)
            }
            ChainStep::Observe(i, r, answer) => {
                log.push(format!("observe {i} {} {answer}", r.url));
                chain_observed(count, i, r, answer)
            }
            ChainStep::Return(outcome) => return (log, outcome.map_err(|e| e.code)),
        }
    }
}

#[test]
fn a_call_runs_through_its_interceptors_in_order() {
    let (log, outcome) = run_call(2, None, false, true);
    assert_eq!(
        log,
        vec![
            "intercept 0 /x",
            "intercept 1 /x0",
            "send /x01",
            "observe 0 /x01 /x01",
            "observe 1 /x01 /x01"
        ]
    );
    assert_eq!(outcome, Ok("/x01".to_string()));
    let (log, outcome) = run_call(0, None, false, true);
    assert_eq!(log, vec!["send /x"]);
    assert_eq!(outcome, Ok("/x".to_string()));
}

#[test]
fn an_interceptor_that_fails_ends_the_call() {
    let (log, outcome) = run_call(3, Some(1), false, true);
    assert_eq!(log, vec!["intercept 0 /x", "intercept 1 /x0"]);
    assert_eq!(outcome, Err(7));
}

#[test]
fn only_an_answer_is_observed() {
    let (log, outcome) = run_call(1, None, true, true);
    assert_eq!(log, vec!["intercept 0 /x", "send /x0"]);
    assert_eq!(outcome, Err(14));
    let (log, outcome) = run_call(1, None, false, false);
    assert_eq!(log, vec!["intercept 0 /x", "send /x0"]);
    assert_eq!(outcome, Ok("/x0".to_string()));
}
