use pingme::app::{App, InputMode, LogLevel, TimeRange, UptimeBlock};
use pingme::ping::{Endpoint, PingResult};
use pingme::storage::{MemoryStorage, UptimeRatio};
use pingme::ui::{calculate_block_dimensions, get_block_char};

fn result(id: u128, status: bool, latency_ms: u64, timestamp: u64) -> PingResult {
    PingResult { endpoint_id: id, status, latency_ms, timestamp }
}

fn blocks_of(app: &App, id: u128) -> Vec<UptimeBlock> {
    app.uptime_blocks.get(id).cloned().unwrap_or_default()
}

#[test]
fn time_range_labels_and_hours() {
    assert_eq!(TimeRange::Minutes(60).display_name(), "60m");
    assert_eq!(TimeRange::Minutes(5).display_name(), "5m");
    assert_eq!(TimeRange::Minutes(60).get_duration_hours(), Some(1));
    assert_eq!(TimeRange::Minutes(90).get_duration_hours(), Some(1));
    assert_eq!(TimeRange::Minutes(120).get_duration_hours(), Some(2));
}

#[test]
fn new_app_defaults() {
    let app = App::new();
    assert!(app.endpoints_stats.is_empty());
    assert_eq!(app.selected_endpoint, 0);
    assert!(matches!(app.input_mode, InputMode::Normal));
    assert!(!app.developer_mode);
    assert!(app.logs.is_empty());
    assert_eq!(app.log_scroll, 0);
    assert_eq!(app.time_ranges, vec![TimeRange::Minutes(60)]);
    assert_eq!(app.selected_time_range, 0);
}

#[test]
fn realtime_blocks_stay_capped_and_sorted() {
    let mut app = App::new();
    for t in 0..70u64 {
        app.add_realtime_block(1, t % 2 == 0, t);
        let blocks = blocks_of(&app, 1);
        assert!(blocks.len() <= 60);
        for w in blocks.windows(2) {
            assert!(w[0].timestamp <= w[1].timestamp);
        }
    }
    let blocks = blocks_of(&app, 1);
    assert_eq!(blocks.len(), 60);
    // the oldest blocks were trimmed from the front
    assert_eq!(blocks[0].timestamp, 10);
    assert_eq!(blocks[59].timestamp, 69);
}

#[test]
fn realtime_blocks_resort_out_of_order_arrivals() {
    let mut app = App::new();
    app.add_realtime_block(1, true, 100);
    app.add_realtime_block(1, false, 50);
    app.add_realtime_block(1, true, 75);
    let blocks = blocks_of(&app, 1);
    assert_eq!(blocks.len(), 3);
    assert_eq!(blocks[0].timestamp, 50);
    assert_eq!(blocks[1].timestamp, 75);
    assert_eq!(blocks[2].timestamp, 100);
    assert!(!blocks[0].status);
    assert!(blocks[1].status);
    assert!(blocks[2].status);
}

#[test]
fn realtime_blocks_keep_endpoints_apart() {
    let mut app = App::new();
    app.add_realtime_block(1, true, 10);
    app.add_realtime_block(2, false, 20);
    assert_eq!(blocks_of(&app, 1).len(), 1);
    assert_eq!(blocks_of(&app, 2).len(), 1);
    assert!(blocks_of(&app, 1)[0].status);
    assert!(!blocks_of(&app, 2)[0].status);
}

#[test]
fn update_stats_refreshes_summaries_and_charts() {
    let mut app = App::new();
    let mut store = MemoryStorage::new();
    store.add_endpoint(&Endpoint { id: 1, url: String::from("a") });
    let now: u64 = 10 * 3600 + 1800;
    store.save_result(&result(1, true, 42, now - 60));
    app.update_stats(&store, now);

    assert_eq!(app.endpoints_stats.len(), 1);
    assert_eq!(app.endpoints_stats[0].last_status, Some(true));
    assert_eq!(app.endpoints_stats[0].avg_latency, Some(42));
    assert_eq!(
        app.endpoints_stats[0].uptime_percentage,
        UptimeRatio { successes: 1, total: 1 }
    );

    // the active range is 60 minutes, so the chart spans one hour
    let chart = app.uptime_history.get(1).cloned().unwrap();
    assert!(!chart.is_empty());
    for p in &chart {
        assert!(p.x_minutes <= 60);
    }
    // the bucket holding the result reports its ratio
    assert!(chart.iter().any(|p| p.y == UptimeRatio { successes: 1, total: 1 }));
}

#[test]
fn update_stats_synthesizes_flat_series_without_history() {
    let mut app = App::new();
    let mut store = MemoryStorage::new();
    store.add_endpoint(&Endpoint { id: 1, url: String::from("a") });
    app.update_stats(&store, 100000);
    let chart = app.uptime_history.get(1).cloned().unwrap();
    assert_eq!(chart.len(), 2);
    assert_eq!(chart[0].x_minutes, 0);
    assert_eq!(chart[1].x_minutes, 60);
    assert_eq!(chart[0].y, UptimeRatio { successes: 0, total: 0 });
    assert_eq!(chart[1].y, UptimeRatio { successes: 0, total: 0 });
}

#[test]
fn update_stats_backfills_unseen_endpoint_blocks_once() {
    let mut app = App::new();
    let mut store = MemoryStorage::new();
    store.add_endpoint(&Endpoint { id: 1, url: String::from("a") });
    let now: u64 = 20 * 3600 + 1800;
    // two in-window results in the same hour, with opposite statuses:
    // each raw result becomes its own block, carrying its own status
    store.save_result(&result(1, true, 5, now - 660));
    store.save_result(&result(1, false, 5, now - 600));
    app.update_stats(&store, now);
    let backfilled = blocks_of(&app, 1);
    assert_eq!(backfilled.len(), 2);
    assert_eq!(backfilled[0].timestamp, now - 660);
    assert!(backfilled[0].status);
    assert_eq!(backfilled[1].timestamp, now - 600);
    assert!(!backfilled[1].status);

    // an endpoint already observed keeps its timeline on refresh
    app.add_realtime_block(1, true, now + 60);
    let before = blocks_of(&app, 1);
    app.update_stats(&store, now + 120);
    assert_eq!(blocks_of(&app, 1), before);
}

#[test]
fn backfill_sorts_and_caps_at_sixty_blocks() {
    let mut app = App::new();
    let mut store = MemoryStorage::new();
    store.add_endpoint(&Endpoint { id: 1, url: String::from("a") });
    let now: u64 = 30 * 3600;
    // 70 in-window results, saved newest first: the backfill sorts them
    // ascending and keeps only the newest 60
    for i in 0..70u64 {
        store.save_result(&result(1, true, 5, now - i * 10));
    }
    app.update_stats(&store, now);
    let backfilled = blocks_of(&app, 1);
    assert_eq!(backfilled.len(), 60);
    assert_eq!(backfilled[0].timestamp, now - 590);
    assert_eq!(backfilled[59].timestamp, now);
    for w in backfilled.windows(2) {
        assert!(w[0].timestamp <= w[1].timestamp);
    }
}

#[test]
fn backfill_ignores_results_outside_the_window() {
    let mut app = App::new();
    let mut store = MemoryStorage::new();
    store.add_endpoint(&Endpoint { id: 1, url: String::from("a") });
    let now: u64 = 30 * 3600;
    store.save_result(&result(1, true, 5, now - 2 * 3600)); // older than 60m
    store.save_result(&result(2, true, 5, now - 60)); // another endpoint
    store.save_result(&result(1, false, 5, now - 60)); // in window
    app.update_stats(&store, now);
    let backfilled = blocks_of(&app, 1);
    assert_eq!(backfilled.len(), 1);
    assert_eq!(backfilled[0].timestamp, now - 60);
    assert!(!backfilled[0].status);
}

#[test]
fn add_log_trims_oldest_hundred_past_a_thousand() {
    let mut app = App::new();
    for t in 0..1000u64 {
        app.add_log(LogLevel::Info, format!("m{}", t), t);
    }
    assert_eq!(app.logs.len(), 1000);
    app.add_log(LogLevel::Warning, String::from("overflow"), 1000);
    assert_eq!(app.logs.len(), 901);
    assert_eq!(app.logs[0].timestamp, 100);
    assert_eq!(app.logs[900].timestamp, 1000);
    assert_eq!(app.logs[900].message, "overflow");
}

#[test]
fn developer_mode_and_scrolling() {
    let mut app = App::new();
    app.add_log(LogLevel::Info, String::from("a"), 1);
    app.add_log(LogLevel::Info, String::from("b"), 2);
    app.toggle_developer_mode();
    assert!(app.developer_mode);
    assert_eq!(app.log_scroll, 0);
    app.scroll_logs_down();
    assert_eq!(app.log_scroll, 1);
    app.scroll_logs_down();
    assert_eq!(app.log_scroll, 1); // stops at the last line
    app.scroll_logs_up();
    assert_eq!(app.log_scroll, 0);
    app.scroll_logs_up();
    assert_eq!(app.log_scroll, 0); // stops at the top
    app.toggle_developer_mode();
    assert!(!app.developer_mode);
}

#[test]
fn endpoint_selection_wraps() {
    let mut app = App::new();
    let mut store = MemoryStorage::new();
    store.add_endpoint(&Endpoint { id: 1, url: String::from("a") });
    store.add_endpoint(&Endpoint { id: 2, url: String::from("b") });
    app.update_stats(&store, 100000);
    assert_eq!(app.selected_endpoint, 0);
    app.next_endpoint();
    assert_eq!(app.selected_endpoint, 1);
    app.next_endpoint();
    assert_eq!(app.selected_endpoint, 0);
    app.previous_endpoint();
    assert_eq!(app.selected_endpoint, 1);
    app.previous_endpoint();
    assert_eq!(app.selected_endpoint, 0);
}

#[test]
fn block_grid_dimensions() {
    let range = TimeRange::Minutes(60);
    assert_eq!(calculate_block_dimensions(10, &range), (1, 1, 5));
    assert_eq!(calculate_block_dimensions(0, &range), (1, 1, 1));
    assert_eq!(calculate_block_dimensions(1, &range), (1, 1, 1));
    assert_eq!(calculate_block_dimensions(7, &TimeRange::Minutes(15)), (1, 1, 3));
    assert_eq!(get_block_char(1), "\u{2588}");
    assert_eq!(get_block_char(3), "\u{2588}");
}

#[test]
fn clock_reads_a_post_epoch_time() {
    // nothing is promised of the value beyond its type; exercise the read
    let _t: u64 = pingme::clock::unix_now();
}
