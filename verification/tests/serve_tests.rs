use privaxy::blocker::CosmeticBlockerResult;
use privaxy::blocker::NetworkBlockerResult;
use privaxy::cert::Authority;
use privaxy::exclusions::LocalExclusionStore;
use privaxy::mitm::route_with_exclusions;
use privaxy::mitm::tunnel_port;
use privaxy::mitm::RequestRoute;
use privaxy::rewriter::rewrite_html;
use privaxy::serve::authority_string;
use privaxy::serve::blocked_path_key;
use privaxy::serve::get_blocked_by_privaxy_response;
use privaxy::serve::get_empty_response;
use privaxy::serve::get_informative_error_response;
use privaxy::serve::process_body;
use privaxy::serve::rebuild_uri;
use privaxy::serve::ChunkBuffer;
use privaxy::serve::Scheme;
use privaxy::serve::BUFFER_SIZE;

fn empty_match() -> NetworkBlockerResult {
    NetworkBlockerResult::empty()
}

fn no_cosmetics() -> CosmeticBlockerResult {
    CosmeticBlockerResult {
        hidden_selectors: Vec::new(),
        style_selectors: Vec::new(),
        injected_script: None,
    }
}

#[test]
fn connect_for_excluded_host_is_tunneled() {
    let store = LocalExclusionStore::new(vec!["example.com".to_string()]);
    let authority = Authority { host: "example.com".to_string(), port: Some(443) };
    let route = route_with_exclusions(Some(&authority), true, &store);
    assert_eq!(route, RequestRoute::Tunnel);
    assert_eq!(tunnel_port(&authority), 443);
    let bare = Authority { host: "example.com".to_string(), port: None };
    assert_eq!(tunnel_port(&bare), 443);
}

#[test]
fn connect_for_other_hosts_is_intercepted() {
    let store = LocalExclusionStore::new(vec!["example.com".to_string()]);
    let authority = Authority { host: "blocked.test".to_string(), port: Some(443) };
    assert_eq!(route_with_exclusions(Some(&authority), true, &store), RequestRoute::Intercept);
    assert_eq!(route_with_exclusions(Some(&authority), false, &store), RequestRoute::Serve);
    assert_eq!(route_with_exclusions(None, true, &store), RequestRoute::BadRequest);
    assert_eq!(route_with_exclusions(None, false, &store), RequestRoute::BadRequest);
}

#[test]
fn tunnel_buffer_passes_bytes_unchanged() {
    // every byte that goes into the streaming buffer comes out, in order
    let mut buffer = ChunkBuffer::new();
    let mut sent: Vec<u8> = Vec::new();
    let mut received: Vec<u8> = Vec::new();
    let chunks: Vec<Vec<u8>> = vec![
        vec![1, 2, 3],
        Vec::new(),
        (0..255).collect(),
        vec![0; 1000],
    ];
    for chunk in &chunks {
        sent.extend_from_slice(chunk);
        if let Some(flushed) = buffer.push(chunk) {
            received.extend_from_slice(&flushed);
        }
    }
    received.extend_from_slice(&buffer.finish());
    assert_eq!(sent, received);
}

#[test]
fn full_buffer_flushes_at_the_threshold() {
    let mut buffer = ChunkBuffer::new();
    let big = vec![7u8; BUFFER_SIZE + 5];
    match buffer.push(&big) {
        Some(flushed) => assert_eq!(flushed, big),
        None => panic!("a chunk past the threshold must flush"),
    }
    assert!(buffer.finish().is_empty());
    let small = vec![1u8; 10];
    assert!(buffer.push(&small).is_none());
    assert_eq!(buffer.finish(), small);
}

#[test]
fn effective_uri_is_rebuilt_from_parts() {
    let authority = Authority { host: "example.com".to_string(), port: Some(8080) };
    assert_eq!(authority_string(&authority), "example.com:8080");
    let uri = rebuild_uri(Scheme::Https, &authority, Some("/a/b?q=1"));
    assert_eq!(uri, "https://example.com:8080/a/b?q=1");
    let bare = Authority { host: "example.com".to_string(), port: None };
    assert_eq!(rebuild_uri(Scheme::Http, &bare, None), "http://example.com/");
    assert_eq!(
        blocked_path_key(Scheme::Https, "example.com", "/ads/banner.js"),
        "https://example.com/ads/banner.js"
    );
}

#[test]
fn blocked_response_serves_redirect_payload_as_ok() {
    let mut result = empty_match();
    result.matched = true;
    result.redirect = Some("payload-bytes".to_string());
    let response = get_blocked_by_privaxy_response(result);
    assert_eq!(response.status, 200);
    assert_eq!(response.body, b"payload-bytes".to_vec());
}

#[test]
fn blocked_response_names_the_matching_filter() {
    let mut result = empty_match();
    result.matched = true;
    result.filter = Some("||blocked.test^".to_string());
    let response = get_blocked_by_privaxy_response(result);
    assert_eq!(response.status, 403);
    let body = String::from_utf8(response.body).unwrap();
    assert!(body.contains("||blocked.test^"));
    assert!(!body.contains("#{matching_filter}#"));
}

#[test]
fn blocked_response_without_filter_information() {
    let mut result = empty_match();
    result.matched = true;
    let response = get_blocked_by_privaxy_response(result);
    assert_eq!(response.status, 403);
    let body = String::from_utf8(response.body).unwrap();
    assert!(body.contains("No information"));
}

#[test]
fn upstream_failure_yields_bad_gateway_with_reason() {
    let response = get_informative_error_response("connection refused by upstream");
    assert_eq!(response.status, 502);
    let body = String::from_utf8(response.body).unwrap();
    assert!(body.contains("connection refused by upstream"));
    assert!(!body.contains("#{request_error_reson}#"));
}

#[test]
fn missing_authority_yields_empty_bad_request() {
    let response = get_empty_response(400);
    assert_eq!(response.status, 400);
    assert!(response.body.is_empty());
}

#[test]
fn non_html_bodies_pass_through_byte_exactly() {
    let body: Vec<u8> = vec![0, 159, 146, 150, 255, 13, 10];
    let out = process_body("application/octet-stream", body.clone(), &no_cosmetics());
    assert_eq!(out, body);
    let json: Vec<u8> = b"{\"k\":1}".to_vec();
    let out = process_body("application/json; charset=utf-8", json.clone(), &no_cosmetics());
    assert_eq!(out, json);
}

#[test]
fn html_bodies_gain_the_hiding_style_block() {
    let cosmetics = CosmeticBlockerResult {
        hidden_selectors: vec!["#ad".to_string()],
        style_selectors: Vec::new(),
        injected_script: None,
    };
    let body = b"<html><head></head><body><div id=\"ad\"></div></body></html>".to_vec();
    let out = process_body("text/html; charset=utf-8", body, &cosmetics);
    let text = String::from_utf8(out).unwrap();
    assert!(text.contains("#ad { display: none !important }"));
    assert!(text.contains("<style"));
    assert!(text.starts_with("<html><head><style"));
}

#[test]
fn rewriter_injects_script_when_present() {
    let cosmetics = CosmeticBlockerResult {
        hidden_selectors: vec![".banner".to_string()],
        style_selectors: vec![("#proc".to_string(), Vec::new())],
        injected_script: Some("console.log('x');".to_string()),
    };
    let page = rewrite_html("<html><head></head><body></body></html>", &cosmetics);
    assert!(page.contains(".banner { display: none !important }"));
    assert!(page.contains("#proc { display: none !important }"));
    assert!(page.contains("<script>console.log('x');</script>"));
}

#[test]
fn rewriting_an_already_rewritten_page_changes_nothing() {
    let cosmetics = CosmeticBlockerResult {
        hidden_selectors: vec!["#ad".to_string()],
        style_selectors: Vec::new(),
        injected_script: Some("console.log('x');".to_string()),
    };
    let original = "<html><head></head><body><div id=\"ad\"></div></body></html>";
    let once = rewrite_html(original, &cosmetics);
    let twice = rewrite_html(once.as_str(), &cosmetics);
    assert_eq!(once, twice);
    assert_eq!(once.matches("<style").count(), 1);
    assert_eq!(once.matches("<script>").count(), 1);
}

#[test]
fn pages_without_a_head_are_prefixed() {
    let cosmetics = CosmeticBlockerResult {
        hidden_selectors: vec!["#ad".to_string()],
        style_selectors: Vec::new(),
        injected_script: None,
    };
    let page = rewrite_html("<p>bare</p>", &cosmetics);
    assert!(page.starts_with("<style"));
    assert!(page.ends_with("<p>bare</p>"));
}

#[test]
fn exclusion_store_membership() {
    let mut store = LocalExclusionStore::new(vec![
        "example.com".to_string(),
        "other.test".to_string(),
    ]);
    assert!(store.contains("example.com"));
    assert!(!store.contains("blocked.test"));
    store.replace_exclusions(vec!["blocked.test".to_string()]);
    assert!(store.contains("blocked.test"));
    assert!(!store.contains("example.com"));
}
