use pingme::ping::{Endpoint, PingResult};
use pingme::storage::{MemoryStorage, UptimeRatio};

fn result(id: u128, status: bool, latency_ms: u64, timestamp: u64) -> PingResult {
    PingResult { endpoint_id: id, status, latency_ms, timestamp }
}

#[test]
fn registry_keeps_last_add_per_id() {
    let mut store = MemoryStorage::new();
    let e1 = Endpoint { id: 1, url: String::from("example.com") };
    let e2 = Endpoint { id: 1, url: String::from("example.org") };
    store.add_endpoint(&e1);
    store.add_endpoint(&e2);
    let all = store.get_all_enpoints();
    assert_eq!(all.len(), 1);
    assert_eq!(all[0].id, 1);
    assert_eq!(all[0].url, "example.org");
}

#[test]
fn registry_never_merges_by_url() {
    let mut store = MemoryStorage::new();
    let e1 = Endpoint { id: 1, url: String::from("example.com") };
    let e2 = Endpoint { id: 2, url: String::from("example.com") };
    store.add_endpoint(&e1);
    store.add_endpoint(&e2);
    let all = store.get_all_enpoints();
    assert_eq!(all.len(), 2);
    assert_eq!(all[0].id, 1);
    assert_eq!(all[1].id, 2);
    assert_eq!(all[0].url, all[1].url);
}

#[test]
fn history_eviction_drops_oldest_ten_thousand_once() {
    let mut store = MemoryStorage::new();
    for i in 0..50000u64 {
        store.save_result(&result(7, true, 1, i));
    }
    assert_eq!(store.ping_results.len(), 50000);
    // the 50,001st insert triggers one batch eviction
    store.save_result(&result(7, true, 1, 50000));
    assert_eq!(store.ping_results.len(), 40001);
    assert_eq!(store.ping_results[0].timestamp, 10000);
    assert_eq!(store.ping_results[40000].timestamp, 50000);
    // the next insert does not re-trigger eviction
    store.save_result(&result(7, true, 1, 50001));
    assert_eq!(store.ping_results.len(), 40002);
    assert_eq!(store.ping_results[0].timestamp, 10000);
}

#[test]
fn stats_without_results_report_none_and_zero() {
    let mut store = MemoryStorage::new();
    store.add_endpoint(&Endpoint { id: 5, url: String::from("a") });
    let stats = store.get_endpoint_stats();
    assert_eq!(stats.len(), 1);
    assert_eq!(stats[0].last_status, None);
    assert_eq!(stats[0].last_ping, None);
    assert_eq!(stats[0].avg_latency, None);
    assert_eq!(stats[0].uptime_percentage, UptimeRatio { successes: 0, total: 0 });
    assert_eq!(stats[0].uptime_percentage.percent_hundredths(), 0);
}

#[test]
fn stats_after_success_then_failure() {
    let mut store = MemoryStorage::new();
    store.add_endpoint(&Endpoint { id: 5, url: String::from("a") });
    store.save_result(&result(5, true, 42, 1000));
    let stats = store.get_endpoint_stats();
    assert_eq!(stats[0].last_status, Some(true));
    assert_eq!(stats[0].last_ping, Some(1000));
    assert_eq!(stats[0].avg_latency, Some(42));
    assert_eq!(stats[0].uptime_percentage, UptimeRatio { successes: 1, total: 1 });
    assert_eq!(stats[0].uptime_percentage.percent_hundredths(), 10000);

    store.save_result(&result(5, false, 100, 2000));
    let stats = store.get_endpoint_stats();
    assert_eq!(stats[0].last_status, Some(false));
    assert_eq!(stats[0].last_ping, Some(2000));
    assert_eq!(stats[0].avg_latency, Some(71)); // (42 + 100) / 2, truncating
    assert_eq!(stats[0].uptime_percentage, UptimeRatio { successes: 1, total: 2 });
    assert_eq!(stats[0].uptime_percentage.percent_hundredths(), 5000);
}

#[test]
fn stats_filter_by_endpoint() {
    let mut store = MemoryStorage::new();
    store.add_endpoint(&Endpoint { id: 1, url: String::from("a") });
    store.add_endpoint(&Endpoint { id: 2, url: String::from("b") });
    store.save_result(&result(1, true, 10, 100));
    store.save_result(&result(2, false, 30, 200));
    store.save_result(&result(1, true, 20, 300));
    let stats = store.get_endpoint_stats();
    assert_eq!(stats.len(), 2);
    assert_eq!(stats[0].endpoint.id, 1);
    assert_eq!(stats[0].uptime_percentage, UptimeRatio { successes: 2, total: 2 });
    assert_eq!(stats[0].avg_latency, Some(15));
    assert_eq!(stats[1].endpoint.id, 2);
    assert_eq!(stats[1].uptime_percentage, UptimeRatio { successes: 0, total: 1 });
    assert_eq!(stats[1].last_status, Some(false));
}

#[test]
fn uptime_history_buckets_cover_window_ascending() {
    let mut store = MemoryStorage::new();
    let now: u64 = 10 * 3600 + 1800; // half past hour ten
    // one success in hour 9, one failure in hour 10
    store.save_result(&result(1, true, 5, 9 * 3600 + 60));
    store.save_result(&result(1, false, 5, 10 * 3600 + 60));
    let hist = store.get_uptime_history_at(1, 2, now);
    // window starts at 8:30, so buckets for hours 8, 9, 10
    assert_eq!(hist.len(), 3);
    assert_eq!(hist[0].0, 8 * 3600);
    assert_eq!(hist[1].0, 9 * 3600);
    assert_eq!(hist[2].0, 10 * 3600);
    // empty hour reports the zero ratio, not an absence
    assert_eq!(hist[0].1, UptimeRatio { successes: 0, total: 0 });
    assert_eq!(hist[1].1, UptimeRatio { successes: 1, total: 1 });
    assert_eq!(hist[2].1, UptimeRatio { successes: 0, total: 1 });
}

#[test]
fn uptime_history_idempotent_for_fixed_now() {
    let mut store = MemoryStorage::new();
    store.save_result(&result(1, true, 5, 7200));
    store.save_result(&result(1, true, 5, 7300));
    let now: u64 = 9000;
    let a = store.get_uptime_history_at(1, 1, now);
    let b = store.get_uptime_history_at(1, 1, now);
    assert_eq!(a, b);
    for w in a.windows(2) {
        assert!(w[0].0 < w[1].0);
    }
}

#[test]
fn uptime_history_empty_without_results_in_window() {
    let mut store = MemoryStorage::new();
    // a result for another endpoint, and one far before the window
    store.save_result(&result(2, true, 5, 9000));
    store.save_result(&result(1, true, 5, 100));
    let hist = store.get_uptime_history_at(1, 1, 10000);
    assert!(hist.is_empty());
}

#[test]
fn uptime_history_ignores_other_endpoints() {
    let mut store = MemoryStorage::new();
    store.save_result(&result(1, true, 5, 7200));
    store.save_result(&result(2, false, 5, 7201));
    let hist = store.get_uptime_history_at(1, 1, 7300);
    let bucket = hist.iter().find(|(ts, _)| *ts == 7200).unwrap();
    assert_eq!(bucket.1, UptimeRatio { successes: 1, total: 1 });
}

#[test]
fn add_endpoint_url_registers_fresh_endpoint() {
    let mut store = MemoryStorage::new();
    let id = store.add_endpoint_url(String::from("example.com"));
    let all = store.get_all_enpoints();
    assert_eq!(all.len(), 1);
    assert_eq!(all[0].id, id);
    assert_eq!(all[0].url, "example.com");
}

#[test]
fn percent_hundredths_truncates() {
    let r = UptimeRatio { successes: 2, total: 3 };
    assert_eq!(r.percent_hundredths(), 6666);
    assert!(r.positive());
    assert!(!UptimeRatio { successes: 0, total: 4 }.positive());
}
