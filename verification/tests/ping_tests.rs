use pingme::app::LogLevel;
use pingme::numfmt::dec_string;
use pingme::ping::{
    AttemptOutcome, Endpoint, ProbePlan, is_success_code, normalize_url, outcome_status,
    plan_after_head, probe_log_level, probe_result,
};

#[test]
fn normalize_url_prefixes_bare_hosts() {
    assert_eq!(normalize_url(&String::from("example.com")), "http://example.com");
    assert_eq!(normalize_url(&String::from("http://example.com")), "http://example.com");
    assert_eq!(normalize_url(&String::from("https://example.com")), "https://example.com");
    assert_eq!(normalize_url(&String::from("")), "http://");
    assert_eq!(normalize_url(&String::from("httpx.example")), "http://httpx.example");
}

#[test]
fn success_codes_are_the_2xx_range() {
    assert!(is_success_code(200));
    assert!(is_success_code(204));
    assert!(is_success_code(299));
    assert!(!is_success_code(199));
    assert!(!is_success_code(300));
    assert!(!is_success_code(404));
    assert!(!is_success_code(500));
}

#[test]
fn head_response_concludes_without_fallback() {
    // a 200 on HEAD concludes as up
    assert_eq!(
        plan_after_head(&AttemptOutcome::Response { code: 200 }),
        ProbePlan::Conclude { status: true }
    );
    // any other status code is a completed probe that is down; no fallback
    assert_eq!(
        plan_after_head(&AttemptOutcome::Response { code: 405 }),
        ProbePlan::Conclude { status: false }
    );
    // only a timeout falls back to GET
    assert_eq!(plan_after_head(&AttemptOutcome::TimedOut), ProbePlan::FallbackToGet);
    // a transport failure concludes as down
    assert_eq!(
        plan_after_head(&AttemptOutcome::TransportFailed),
        ProbePlan::Conclude { status: false }
    );
}

#[test]
fn get_fallback_after_timeout_records_up() {
    // HEAD times out, GET answers 200: the probe still records up
    let plan = plan_after_head(&AttemptOutcome::TimedOut);
    assert_eq!(plan, ProbePlan::FallbackToGet);
    assert!(outcome_status(&AttemptOutcome::Response { code: 200 }));
    // GET timing out as well concludes as down
    assert!(!outcome_status(&AttemptOutcome::TimedOut));
    // connection refused concludes as down
    assert!(!outcome_status(&AttemptOutcome::TransportFailed));
}

#[test]
fn probe_result_records_status_latency_and_time() {
    let up = probe_result(9, &AttemptOutcome::Response { code: 200 }, 42, 1234);
    assert_eq!(up.endpoint_id, 9);
    assert!(up.status);
    assert_eq!(up.latency_ms, 42);
    assert_eq!(up.timestamp, 1234);

    let down = probe_result(9, &AttemptOutcome::TransportFailed, 17, 1235);
    assert!(!down.status);
    assert_eq!(down.latency_ms, 17);
}

#[test]
fn probe_log_levels_match_outcomes() {
    assert_eq!(probe_log_level(&AttemptOutcome::Response { code: 200 }), LogLevel::Success);
    assert_eq!(probe_log_level(&AttemptOutcome::Response { code: 503 }), LogLevel::Warning);
    assert_eq!(probe_log_level(&AttemptOutcome::TimedOut), LogLevel::Error);
    assert_eq!(probe_log_level(&AttemptOutcome::TransportFailed), LogLevel::Error);
}

#[test]
fn fresh_endpoint_keeps_its_url() {
    let e = Endpoint::with_fresh_id(String::from("example.com"));
    assert_eq!(e.url, "example.com");
}

#[test]
fn decimal_rendering() {
    assert_eq!(dec_string(0), "0");
    assert_eq!(dec_string(7), "7");
    assert_eq!(dec_string(60), "60");
    assert_eq!(dec_string(1234567890), "1234567890");
    assert_eq!(dec_string(u64::MAX), "18446744073709551615");
}
