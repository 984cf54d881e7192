use privaxy::statistics::Statistics;
use privaxy::statistics::TOP_TABLE_LIMIT;

#[test]
fn counters_start_at_zero_and_increment() {
    let mut stats = Statistics::new();
    assert_eq!(stats.increment_proxied_requests(), 1);
    assert_eq!(stats.increment_proxied_requests(), 2);
    assert_eq!(stats.increment_blocked_requests(), 1);
    assert_eq!(stats.increment_modified_responses(), 1);
    assert_eq!(stats.proxied_requests, 2);
    assert_eq!(stats.blocked_requests, 1);
    assert_eq!(stats.modified_responses, 1);
}

#[test]
fn blocked_request_credited_exactly_once() {
    let mut stats = Statistics::new();
    stats.record_blocked("https://ads.test/banner".to_string());
    stats.record_blocked("https://ads.test/banner".to_string());
    stats.record_blocked("https://other.test/x".to_string());
    assert_eq!(stats.blocked_requests, 3);
    let table = &stats.top_blocked_paths.entries;
    assert_eq!(table.len(), 2);
    let banner = table.iter().find(|e| e.0 == "https://ads.test/banner").unwrap();
    assert_eq!(banner.1, 2);
    let other = table.iter().find(|e| e.0 == "https://other.test/x").unwrap();
    assert_eq!(other.1, 1);
    // nothing else moved
    assert_eq!(stats.proxied_requests, 0);
    assert_eq!(stats.modified_responses, 0);
    assert!(stats.top_clients.entries.is_empty());
}

#[test]
fn cleanup_keeps_only_the_top_fifty() {
    let mut stats = Statistics::new();
    for i in 0..60u64 {
        let key = format!("path-{i}");
        for _ in 0..=i {
            stats.increment_top_blocked_paths(key.clone());
        }
    }
    for i in 0..60u64 {
        let key = format!("client-{i}");
        for _ in 0..=i {
            stats.increment_top_clients(key.clone());
        }
    }
    stats.cleanup_old_metrics(1_700_000_000);
    assert_eq!(stats.top_blocked_paths.entries.len(), TOP_TABLE_LIMIT);
    assert_eq!(stats.top_clients.entries.len(), TOP_TABLE_LIMIT);
    assert_eq!(stats.last_cleanup, 1_700_000_000);
    // the retained rows are those with the highest counts: 11..=60
    for entry in stats.top_blocked_paths.entries.iter() {
        assert!(entry.1 >= 11, "kept a row with count {}", entry.1);
    }
    // and they come out in descending count order
    let counts: Vec<u64> = stats.top_blocked_paths.entries.iter().map(|e| e.1).collect();
    for w in counts.windows(2) {
        assert!(w[0] >= w[1]);
    }
}

#[test]
fn cleanup_of_small_tables_keeps_everything() {
    let mut stats = Statistics::new();
    stats.increment_top_blocked_paths("a".to_string());
    stats.increment_top_blocked_paths("b".to_string());
    stats.cleanup_old_metrics(5);
    assert_eq!(stats.top_blocked_paths.entries.len(), 2);
}

#[test]
fn serialized_snapshot_reports_counters_and_tables() {
    let mut stats = Statistics::new();
    stats.increment_proxied_requests();
    stats.increment_blocked_requests();
    stats.increment_top_blocked_paths("p1".to_string());
    stats.increment_top_blocked_paths("p1".to_string());
    stats.increment_top_blocked_paths("p2".to_string());
    stats.increment_top_clients("10.0.0.1".to_string());
    stats.set_blocker_metrics(42);
    let snapshot = stats.get_serialized();
    assert_eq!(snapshot.proxied_requests, 1);
    assert_eq!(snapshot.blocked_requests, 1);
    assert_eq!(snapshot.top_blocked_paths.len(), 2);
    assert_eq!(snapshot.top_blocked_paths[0], ("p1".to_string(), 2));
    assert_eq!(snapshot.top_blocked_paths[1], ("p2".to_string(), 1));
    assert_eq!(snapshot.top_clients.len(), 1);
    assert_eq!(snapshot.top_clients[0], ("10.0.0.1".to_string(), 1));
    assert_eq!(snapshot.filter_stats.active_filters, 42);
    assert_eq!(snapshot.filter_stats.failed_updates, 0);
    assert_eq!(snapshot.memory_stats.current_usage_kb, 42);
}

#[test]
fn counts_saturate_at_the_top() {
    let mut stats = Statistics::new();
    stats.blocked_requests = u64::MAX;
    assert_eq!(stats.increment_blocked_requests(), u64::MAX);
}
