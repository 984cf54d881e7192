use privaxy::blocker::Blocker;
use privaxy::blocker::BlockerResult;
use privaxy::blocker::BlockingDisabledStore;
use privaxy::blocker::CosmeticRequest;
use privaxy::blocker::NetworkUrl;
use privaxy::blocker::RequestKind;
use privaxy::metrics::MetricsCollector;

fn new_blocker(enabled: bool) -> Blocker {
    let store = BlockingDisabledStore { disabled: !enabled };
    Blocker::new(store, Vec::new(), MetricsCollector::new())
}

#[test]
fn blocking_disabled_store_inverts() {
    let mut store = BlockingDisabledStore { disabled: false };
    assert!(store.is_enabled());
    store.set(false);
    assert!(!store.is_enabled());
    assert!(store.disabled);
    store.set(true);
    assert!(store.is_enabled());
}

#[test]
fn network_request_blocked_by_rule() {
    let mut blocker = new_blocker(true);
    blocker.update_engine(vec!["||blocked.test^".to_string()]);
    let result = blocker.handle_network_request(NetworkUrl {
        url: "https://blocked.test/x".to_string(),
        referer: "https://blocked.test/x".to_string(),
    });
    assert!(result.matched);
    assert_eq!(blocker.metrics.network_requests, 1);
    assert_eq!(blocker.metrics.blocked_requests, 1);
    // the engine names the filter it matched
    assert_eq!(result.filter.as_deref(), Some("||blocked.test^"));
}

#[test]
fn network_request_not_blocked_without_match() {
    let mut blocker = new_blocker(true);
    blocker.update_engine(vec!["||blocked.test^".to_string()]);
    let result = blocker.handle_network_request(NetworkUrl {
        url: "https://fine.test/x".to_string(),
        referer: "https://fine.test/x".to_string(),
    });
    assert!(!result.matched);
    assert_eq!(blocker.metrics.blocked_requests, 0);
}

#[test]
fn network_request_with_blocking_disabled_matches_nothing() {
    let mut blocker = new_blocker(false);
    blocker.update_engine(vec!["||blocked.test^".to_string()]);
    let result = blocker.handle_network_request(NetworkUrl {
        url: "https://blocked.test/x".to_string(),
        referer: "https://blocked.test/x".to_string(),
    });
    assert!(!result.matched);
    assert!(result.redirect.is_none());
    assert!(result.filter.is_none());
    assert_eq!(blocker.metrics.blocked_requests, 0);
    assert_eq!(blocker.metrics.network_requests, 1);
}

#[test]
fn unparsable_url_counts_one_failure() {
    let mut blocker = new_blocker(true);
    let result = blocker.handle_network_request(NetworkUrl {
        url: "not a url at all".to_string(),
        referer: "also not a url".to_string(),
    });
    assert!(!result.matched);
    assert_eq!(blocker.metrics.failed_requests, 1);
    assert_eq!(blocker.metrics.network_requests, 1);
}

#[test]
fn cosmetic_request_returns_generic_selector() {
    let mut blocker = new_blocker(true);
    blocker.update_engine(vec!["##.ad-banner".to_string()]);
    let result = blocker.handle_cosmetic_request(CosmeticRequest {
        url: "https://example.com/".to_string(),
        ids: Vec::new(),
        classes: vec!["ad-banner".to_string()],
    });
    assert!(result.hidden_selectors.iter().any(|s| s == ".ad-banner"));
    assert_eq!(blocker.metrics.cosmetic_requests, 1);
}

#[test]
fn cosmetic_request_with_blocking_disabled_is_empty() {
    let mut blocker = new_blocker(false);
    blocker.update_engine(vec!["##.ad-banner".to_string()]);
    let result = blocker.handle_cosmetic_request(CosmeticRequest {
        url: "https://example.com/".to_string(),
        ids: Vec::new(),
        classes: vec!["ad-banner".to_string()],
    });
    assert!(result.hidden_selectors.is_empty());
    assert!(result.style_selectors.is_empty());
    assert!(result.injected_script.is_none());
}

#[test]
fn update_engine_reports_rule_text_size_in_kb() {
    let mut blocker = new_blocker(true);
    // 3000 bytes of rule text: 2 whole kilobytes
    let filters = vec!["a".repeat(1500), "b".repeat(1500)];
    blocker.update_engine(filters);
    assert_eq!(blocker.metrics.active_filters, 2);
    assert_eq!(blocker.metrics.filter_updates, 1);
}

#[test]
fn engine_swap_under_load_answers_every_query() {
    let mut blocker = new_blocker(true);
    blocker.update_engine(vec!["||old.test^".to_string()]);
    let mut requests = Vec::new();
    for i in 0..500 {
        requests.push(RequestKind::Url(NetworkUrl {
            url: format!("https://old.test/{i}"),
            referer: "https://old.test/".to_string(),
        }));
    }
    requests.push(RequestKind::ReplaceEngine(vec!["||new.test^".to_string()]));
    for i in 0..500 {
        requests.push(RequestKind::Url(NetworkUrl {
            url: format!("https://new.test/{i}"),
            referer: "https://new.test/".to_string(),
        }));
    }
    let updates_before = blocker.metrics.filter_updates;
    let results = blocker.handle_requests(requests);
    assert_eq!(results.len(), 1001);
    // queries before the swap saw the old rules, queries after it the new
    for (i, r) in results.iter().enumerate() {
        match r {
            BlockerResult::Network(n) => {
                if i < 500 {
                    assert!(n.matched, "query {i} should match the old engine");
                } else if i > 500 {
                    assert!(n.matched, "query {i} should match the new engine");
                } else {
                    assert!(!n.matched, "the replace acknowledgement is empty");
                }
            }
            BlockerResult::Cosmetic(_) => panic!("no cosmetic query was sent"),
        }
    }
    assert_eq!(blocker.metrics.filter_updates - updates_before, 1);
}

#[test]
fn old_engine_rules_are_gone_after_swap() {
    let mut blocker = new_blocker(true);
    blocker.update_engine(vec!["||old.test^".to_string()]);
    blocker.update_engine(vec!["||new.test^".to_string()]);
    let old = blocker.handle_network_request(NetworkUrl {
        url: "https://old.test/x".to_string(),
        referer: "https://old.test/x".to_string(),
    });
    assert!(!old.matched);
    let new = blocker.handle_network_request(NetworkUrl {
        url: "https://new.test/x".to_string(),
        referer: "https://new.test/x".to_string(),
    });
    assert!(new.matched);
}

#[test]
fn metrics_snapshots_convert_durations() {
    let mut metrics = MetricsCollector::new();
    metrics.last_update_time = 2_500_000;
    metrics.active_filters = 7;
    metrics.failed_updates = 2;
    metrics.filter_updates = 3;
    let filters = metrics.get_filter_metrics();
    assert_eq!(filters.last_update_time_ms, 2);
    assert_eq!(filters.active_filters, 7);
    assert_eq!(filters.failed_updates, 2);
    assert_eq!(filters.filter_updates, 3);
    metrics.record_memory_sample(900);
    metrics.record_memory_sample(400);
    let memory = metrics.get_memory_metrics();
    assert_eq!(memory.current_usage_kb, 400);
    assert_eq!(memory.peak_usage_kb, 900);
    assert_eq!(memory.filter_memory_kb, 7);
}

#[test]
fn metrics_payload_comparison() {
    let a = "{\"x\":1}".to_string();
    let b = "{\"x\":1}".to_string();
    let c = "{\"x\":2}".to_string();
    assert!(!privaxy::metrics::payload_changed(&a, &b));
    assert!(privaxy::metrics::payload_changed(&a, &c));
}
